use koala::agent::extension_ui::{State, UiAction};
use koala::extension_api::ui::{
    validate_ui, Dialog, Level, Placement, SelectOption, SurfaceKind, UiBlock, UiCommand, UiEventType, UiInputEvent,
};
use koala::json::JsonValue;

/// The batch `[{"type":"set_widget","id":"docs","placement":"above_editor","blocks":[{"type":"select","id":"doc","label":"Choose","options":[{"id":"a","label":"A"}]}]}]`.
fn widget() -> Vec<UiCommand> {
    vec![UiCommand::SetWidget {
        id: "docs".into(),
        placement: Placement::AboveEditor,
        blocks: vec![UiBlock::Select {
            id: "doc".into(),
            label: "Choose".into(),
            options: vec![SelectOption { id: "a".into(), label: "A".into() }],
        }],
    }]
}

const WIDGET_JSON_LEN: usize = r#"[{"type":"set_widget","id":"docs","placement":"above_editor","blocks":[{"type":"select","id":"doc","label":"Choose","options":[{"id":"a","label":"A"}]}]}]"#.len();

fn apply(state: &mut State, owner: &str, commands: Vec<UiCommand>) -> Result<Vec<String>, String> {
    state.apply(owner, commands, WIDGET_JSON_LEN)
}

fn event(kind: UiEventType, surface: SurfaceKind, id: &str, revision: u64, control: Option<&str>, value: JsonValue) -> UiInputEvent {
    UiInputEvent {
        kind,
        event_id: "click".into(),
        surface: Some(surface),
        surface_id: Some(id.into()),
        revision,
        control_id: control.map(str::to_owned),
        value,
    }
}

fn select(state: &State, owner: &str) -> UiAction {
    let surface = state.snapshot.surfaces.iter().find(|s| s.extension == owner).unwrap();
    UiAction {
        extension: owner.into(),
        event: event(UiEventType::Select, SurfaceKind::Widget, "docs", surface.revision, Some("doc"), JsonValue::Str("a".into())),
    }
}

fn same_action(a: &UiAction) -> UiAction {
    let value = match &a.event.value {
        JsonValue::Str(s) => JsonValue::Str(s.clone()),
        JsonValue::Bool(b) => JsonValue::Bool(*b),
        _ => JsonValue::Null,
    };
    UiAction {
        extension: a.extension.clone(),
        event: UiInputEvent {
            kind: a.event.kind,
            event_id: a.event.event_id.clone(),
            surface: a.event.surface,
            surface_id: a.event.surface_id.clone(),
            revision: a.event.revision,
            control_id: a.event.control_id.clone(),
            value,
        },
    }
}

#[test]
fn routes_only_current_valid_controls_and_keeps_owners_isolated() {
    let mut state = State::default();
    apply(&mut state, "one", widget()).unwrap();
    apply(&mut state, "two", widget()).unwrap();
    let event = select(&state, "one");
    let mut forged = same_action(&event);
    forged.event.value = JsonValue::Str("missing".into());
    assert!(state.accept(&forged).is_err());
    state.accept(&event).unwrap();
    assert!(state.accept(&event).is_err(), "double click accepted");
    apply(&mut state, "one", widget()).unwrap();
    assert!(!state.current(&event), "old callback can overwrite new widget");
    let two = select(&state, "two");
    assert!(state.accept(&two).is_ok());
}

#[test]
fn resource_limit_rejects_entire_batch_without_losing_existing_widgets() {
    let mut state = State::default();
    apply(&mut state, "one", widget()).unwrap();
    let batch = (0..32)
        .map(|i| UiCommand::SetWidget { id: format!("w{i}"), placement: Placement::BelowEditor, blocks: vec![] })
        .collect();
    assert!(apply(&mut state, "one", batch).is_err());
    assert_eq!(state.snapshot.surfaces.len(), 1);
    assert_eq!(state.snapshot.surfaces[0].id, "docs");
}

#[test]
fn old_session_action_cannot_target_new_session_with_same_component_ids() {
    let mut old = State::default();
    apply(&mut old, "one", widget()).unwrap();
    let stale = select(&old, "one");
    let mut new = State::default();
    apply(&mut new, "one", widget()).unwrap();
    assert!(new.accept(&stale).is_err(), "old session action accepted in new session");
}

#[test]
fn malformed_batch_is_atomic_and_cancel_invalidates_interactions() {
    let mut state = State::default();
    apply(&mut state, "one", widget()).unwrap();
    let old = select(&state, "one");
    let mut invalid = widget();
    invalid.push(UiCommand::RemoveWidget { id: "".into() });
    assert!(apply(&mut state, "one", invalid).is_err());
    assert!(state.current(&old));
    state.cancel();
    assert!(state.accept(&old).is_err());
    assert_eq!(state.snapshot.surfaces.len(), 1);
}

#[test]
fn notifications_become_notes_and_statuses_are_replaced_in_place() {
    let mut state = State::default();
    let notes = apply(
        &mut state,
        "ext",
        vec![
            UiCommand::Notify { level: Level::Warning, text: "careful".into() },
            UiCommand::SetStatus { id: "s".into(), text: "one".into() },
            UiCommand::SetStatus { id: "s".into(), text: "two".into() },
        ],
    )
    .unwrap();
    assert_eq!(notes, vec!["[ext · Warning] careful".to_string()]);
    assert_eq!(state.snapshot.statuses.len(), 1);
    assert_eq!(state.snapshot.statuses[0].text, "two");
    apply(&mut state, "ext", vec![UiCommand::RemoveStatus { id: "s".into() }]).unwrap();
    assert!(state.snapshot.statuses.is_empty());
}

#[test]
fn confirmation_dialog_closes_only_after_success() {
    let mut state = State::default();
    apply(
        &mut state,
        "ext",
        vec![UiCommand::OpenDialog {
            id: "ask".into(),
            dialog: Dialog::Confirm { title: "Confirm".into(), text: "Continue?".into() },
        }],
    )
    .unwrap();
    let rev = state.snapshot.surfaces[0].revision;
    let confirm = UiAction {
        extension: "ext".into(),
        event: event(UiEventType::Confirm, SurfaceKind::Dialog, "ask", rev, None, JsonValue::Bool(true)),
    };
    state.accept(&confirm).unwrap();
    assert!(state.snapshot.surfaces[0].pending);
    state.finish(&confirm, false);
    assert_eq!(state.snapshot.surfaces.len(), 1);
    assert!(!state.snapshot.surfaces[0].pending);
    assert_ne!(state.snapshot.surfaces[0].revision, rev);
    let retry = UiAction {
        extension: "ext".into(),
        event: event(UiEventType::Confirm, SurfaceKind::Dialog, "ask", state.snapshot.surfaces[0].revision, None, JsonValue::Bool(true)),
    };
    state.accept(&retry).unwrap();
    state.finish(&retry, true);
    assert!(state.snapshot.surfaces.is_empty());
}

#[test]
fn input_values_are_single_line_and_bounded() {
    let mut state = State::default();
    apply(
        &mut state,
        "ext",
        vec![UiCommand::SetWidget {
            id: "form".into(),
            placement: Placement::BelowEditor,
            blocks: vec![UiBlock::Input { id: "msg".into(), label: "Message".into(), value: String::new() }],
        }],
    )
    .unwrap();
    let rev = state.snapshot.surfaces[0].revision;
    let submit = |v: &str| UiAction {
        extension: "ext".into(),
        event: event(UiEventType::Submit, SurfaceKind::Widget, "form", rev, Some("msg"), JsonValue::Str(v.into())),
    };
    assert_eq!(state.accept(&submit("two\nlines")).unwrap_err(), "invalid UI event or value");
    assert_eq!(state.accept(&submit(&"x".repeat(16385))).unwrap_err(), "invalid UI event or value");
    assert!(state.accept(&submit("hello 中文")).is_ok());
    assert_eq!(state.accept(&submit("again")).unwrap_err(), "stale or pending UI component");
}

#[test]
fn rejects_ambiguous_and_unbounded_ui() {
    let batches = vec![
        vec![
            UiBlock::Button { id: "same".into(), label: "A".into() },
            UiBlock::Input { id: "same".into(), label: "B".into(), value: String::new() },
        ],
        vec![UiBlock::Select { id: "s".into(), label: "S".into(), options: vec![] }],
        vec![UiBlock::Text { text: "x".repeat(16385) }],
    ];
    for blocks in batches {
        let commands = vec![UiCommand::SetWidget { id: "w".into(), placement: Placement::AboveEditor, blocks }];
        assert!(validate_ui(&commands, 100).is_err());
    }
}

#[test]
fn validation_reports_the_first_problem() {
    let ok = widget();
    assert!(validate_ui(&ok, WIDGET_JSON_LEN).is_ok());
    assert_eq!(validate_ui(&ok, 262145).unwrap_err(), "UI batch exceeds limit");
    let bad_id = vec![UiCommand::RemoveStatus { id: "a\tb".into() }];
    assert_eq!(validate_ui(&bad_id, 10).unwrap_err(), "invalid UI id");
    let dup = vec![UiCommand::SetWidget {
        id: "w".into(),
        placement: Placement::AboveEditor,
        blocks: vec![UiBlock::Select {
            id: "s".into(),
            label: "S".into(),
            options: vec![
                SelectOption { id: "a".into(), label: "A".into() },
                SelectOption { id: "a".into(), label: "B".into() },
            ],
        }],
    }];
    assert_eq!(validate_ui(&dup, 10).unwrap_err(), "duplicate option id");
    assert_eq!(UiBlock::Text { text: "t".into() }.id(), None);
    assert_eq!(UiBlock::Button { id: "b".into(), label: "B".into() }.id(), Some("b"));
}

#[test]
fn another_owners_batch_leaves_surfaces_alone_and_revisions_grow() {
    let mut state = State::starting_at(7);
    apply(&mut state, "one", widget()).unwrap();
    let first = state.snapshot.surfaces[0].revision;
    assert_eq!(first, 7);
    apply(&mut state, "two", widget()).unwrap();
    apply(&mut state, "two", vec![UiCommand::RemoveWidget { id: "docs".into() }]).unwrap();
    assert_eq!(state.snapshot.surfaces.len(), 1);
    assert_eq!(state.snapshot.surfaces[0].extension, "one");
    assert_eq!(state.snapshot.surfaces[0].revision, first);
    apply(&mut state, "one", widget()).unwrap();
    assert_eq!(state.snapshot.surfaces.len(), 1);
    assert!(state.snapshot.surfaces[0].revision > first);
    assert_eq!(state.next_revision(), 10);
}
