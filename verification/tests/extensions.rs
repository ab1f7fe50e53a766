use koala::config::ExtensionsConfig;
use koala::extension_api::ui::{Level, UiCommand};
use koala::extension_api::{Response, Stage};
use koala::extensions::chain::HookChain;
use koala::extensions::hosted::{check_response, check_ui_event, publishes_ui};
use koala::extensions::manifest::{
    check_install_name, check_manifest, hook_request, parse_stage, request_envelope, stage_text,
    tool_request, Manifest, ToolSpec,
};
use koala::extensions::Extensions;
use koala::json::JsonValue;

fn object(members: Vec<(&str, JsonValue)>) -> JsonValue {
    JsonValue::Object(members.into_iter().map(|(k, v)| (k.to_string(), v)).collect())
}

fn text(s: &str) -> JsonValue {
    JsonValue::Str(s.to_string())
}

fn manifest(api_version: u32, ui: bool, name: &str, command: Vec<&str>) -> Manifest {
    Manifest {
        api_version,
        ui,
        name: name.to_string(),
        command: command.into_iter().map(String::from).collect(),
        hooks: vec![Stage::PreToolUse],
        tools: vec![],
    }
}

#[test]
fn duplicate_names_and_core_tools_are_rejected() {
    let mut extensions = Extensions::new(vec!["bash".to_string()]);
    assert!(extensions
        .register("conflict".to_string(), vec!["bash".to_string()], false)
        .is_err());
}

#[test]
fn registration_errors_name_the_offender() {
    let mut extensions = Extensions::new(vec!["bash".to_string()]);
    assert_eq!(
        extensions
            .register("conflict".to_string(), vec!["bash".to_string()], false)
            .unwrap_err(),
        "duplicate or empty tool: bash"
    );
    extensions
        .register("memory".to_string(), vec!["memory_read".to_string(), "memory_write".to_string()], true)
        .unwrap();
    assert_eq!(
        extensions.register("memory".to_string(), vec![], false).unwrap_err(),
        "duplicate extension: memory"
    );
    assert_eq!(
        extensions
            .register("other".to_string(), vec!["x".to_string(), "memory_write".to_string()], false)
            .unwrap_err(),
        "duplicate or empty tool: memory_write"
    );
    assert_eq!(
        extensions
            .register("other".to_string(), vec!["x".to_string(), "x".to_string()], false)
            .unwrap_err(),
        "duplicate or empty tool: x"
    );
    assert_eq!(
        extensions.register("other".to_string(), vec![String::new()], false).unwrap_err(),
        "duplicate or empty tool: "
    );
    extensions.register("plain".to_string(), vec!["grep2".to_string()], false).unwrap();
    assert_eq!(extensions.tools(), vec!["memory_read", "memory_write", "grep2"]);
    assert_eq!(extensions.ui_extensions(), vec![0]);
    let entries = extensions.tool_entries();
    assert_eq!(entries[2], ("grep2".to_string(), 1));
    assert_eq!(entries[0], ("memory_read".to_string(), 0));
    assert_eq!(extensions.entries().len(), 2);
}

#[test]
fn ordered_argument_rewrite_and_veto() {
    let payload = object(vec![("arguments", object(vec![("command", text("original"))]))]);
    let mut chain = HookChain::new(payload);
    let first = Response {
        arguments: Some(object(vec![("command", text("changed"))])),
        ..Default::default()
    };
    check_response("first", &first, Some(Stage::PreToolUse), false, false, 2).unwrap();
    chain.absorb("first", first);
    let seen = chain.payload().get("arguments").unwrap().get("command").unwrap();
    assert_eq!(seen.as_str(), Some("changed"));
    let veto = Response { block: Some("veto".to_string()), ..Default::default() };
    let err = check_response("second", &veto, Some(Stage::PreToolUse), false, false, 2).unwrap_err();
    assert!(err.contains("second blocked: veto"));
    let combined = chain.finish();
    let args = combined.arguments.unwrap();
    assert_eq!(args.get("command").unwrap().as_str(), Some("changed"));
}

#[test]
fn hook_contexts_and_content_combine_in_order() {
    let mut chain = HookChain::new(JsonValue::Object(vec![]));
    chain.absorb("a", Response { context: Some("one".to_string()), ..Default::default() });
    chain.absorb("b", Response { context: Some("two".to_string()), ..Default::default() });
    chain.absorb(
        "c",
        Response { content: Some("result".to_string()), is_error: true, ..Default::default() },
    );
    assert_eq!(chain.payload().get("content").unwrap().as_str(), Some("result"));
    assert!(matches!(chain.payload().get("is_error"), Some(JsonValue::Bool(true))));
    let combined = chain.finish();
    assert_eq!(
        combined.context.unwrap(),
        "\n[extension a]\none\n\n[extension b]\ntwo\n"
    );
    assert_eq!(combined.content.as_deref(), Some("result"));
    assert!(combined.is_error);
    assert!(combined.arguments.is_none());
}

#[test]
fn empty_hook_run_answers_nothing() {
    let chain = HookChain::new(JsonValue::Object(vec![]));
    let combined = chain.finish();
    assert!(combined.context.is_none() && combined.arguments.is_none() && combined.content.is_none());
    assert!(!combined.is_error);
}

#[test]
fn invalid_answers_are_refused_before_publishing() {
    let notify = || UiCommand::Notify { level: Level::Info, text: "not published".to_string() };
    let bad = Response { arguments: Some(JsonValue::Array(vec![])), ui: vec![notify()], ..Default::default() };
    assert_eq!(
        check_response("invalid", &bad, Some(Stage::BeforeModel), false, true, 10).unwrap_err(),
        "arguments only allowed as object in pre_tool_use"
    );
    let missing = Response {
        ui: vec![UiCommand::SetStatus { id: "status".to_string(), text: "should not be shown".to_string() }],
        ..Default::default()
    };
    assert_eq!(
        check_response("missing-content", &missing, None, false, true, 10).unwrap_err(),
        "extension tool returned no content"
    );
    let content_in_hook = Response { content: Some("x".to_string()), ..Default::default() };
    assert_eq!(
        check_response("e", &content_in_hook, Some(Stage::TurnStart), false, true, 10).unwrap_err(),
        "content only allowed in tool or post_tool_use response"
    );
    assert!(check_response("e", &content_in_hook, Some(Stage::PostToolUse), false, true, 10).is_ok());
    let context_in_event = Response { context: Some("x".to_string()), ..Default::default() };
    assert_eq!(
        check_response("e", &context_in_event, None, true, true, 10).unwrap_err(),
        "ui_event response may only contain UI commands"
    );
    let ui = Response { ui: vec![notify()], ..Default::default() };
    assert_eq!(
        check_response("e", &ui, Some(Stage::TurnStart), false, false, 10).unwrap_err(),
        "extension has not enabled v2 UI"
    );
    assert_eq!(
        check_response("e", &ui, Some(Stage::TurnStart), false, true, 300 * 1024).unwrap_err(),
        "UI batch exceeds limit"
    );
    assert!(check_response("e", &ui, Some(Stage::TurnStart), false, true, 10).is_ok());
    assert!(publishes_ui(&ui, false, true));
    assert!(!publishes_ui(&ui, true, true));
    assert!(!publishes_ui(&ui, false, false));
    assert_eq!(check_ui_event(false).unwrap_err(), "extension has not enabled UI");
    assert!(check_ui_event(true).is_ok());
}

#[test]
fn manifests_load_only_when_complete() {
    let ok = manifest(1, false, "test", vec!["bash", "hook.sh"]);
    assert!(check_manifest(&ok, 30, "extension.toml").is_ok());
    assert!(manifest(2, true, "ui", vec!["python3"]).is_valid(30));
    assert_eq!(
        check_manifest(&manifest(1, true, "ui", vec!["python3"]), 30, "/x/extension.toml").unwrap_err(),
        "invalid extension manifest: /x/extension.toml"
    );
    assert!(!manifest(3, false, "x", vec!["a"]).is_valid(30));
    assert!(!manifest(1, false, "", vec!["a"]).is_valid(30));
    assert!(!manifest(1, false, "x", vec![]).is_valid(30));
    assert!(!manifest(1, false, "x", vec![""]).is_valid(30));
    assert!(!ok.is_valid(0));
    assert_eq!(ExtensionsConfig::default().timeout_secs, 30);
}

#[test]
fn manifest_queries() {
    let mut m = manifest(2, true, "memory", vec!["koala-memory"]);
    m.tools = vec![
        ToolSpec { name: "memory_search".into(), description: "s".into(), parameters: JsonValue::Null, read_only: true },
        ToolSpec { name: "memory_write".into(), description: "w".into(), parameters: JsonValue::Null, read_only: false },
    ];
    assert!(m.read_only("memory_search"));
    assert!(!m.read_only("memory_write"));
    assert!(!m.read_only("other"));
    assert!(m.handles(Stage::PreToolUse));
    assert!(!m.handles(Stage::TurnEnd));
    assert!(m.ui_enabled());
    assert!(!manifest(1, true, "x", vec!["a"]).ui_enabled());
    assert_eq!(m.tool_names(), vec!["memory_search", "memory_write"]);
}

#[test]
fn install_names_are_plain() {
    assert!(check_install_name("memory-ext_2").is_ok());
    assert_eq!(
        check_install_name("../evil").unwrap_err(),
        "extension name must contain only letters, digits, - or _"
    );
    assert!(check_install_name("").is_err());
    assert!(check_install_name("naïve").is_err());
}

#[test]
fn stages_have_snake_case_names() {
    assert_eq!(stage_text(Stage::PreToolUse), "pre_tool_use");
    assert_eq!(parse_stage("turn_start"), Some(Stage::TurnStart));
    assert_eq!(parse_stage("after_compact"), Some(Stage::AfterCompact));
    assert_eq!(parse_stage("TurnStart"), None);
}

#[test]
fn requests_carry_version_and_capabilities() {
    let v1 = manifest(1, false, "shape", vec!["python3"]);
    let stamped = request_envelope(hook_request(Stage::BeforeModel, object(vec![])), &v1, "s", true);
    assert!(stamped.get("capabilities").is_none());
    assert!(stamped.get("session_id").is_none());
    assert_eq!(stamped.get("stage").unwrap().as_str(), Some("before_model"));
    assert_eq!(stamped.get("kind").unwrap().as_str(), Some("hook"));
    let v2 = manifest(2, false, "shape", vec!["python3"]);
    let stamped = request_envelope(tool_request("t", object(vec![])), &v2, "session", true);
    assert!(matches!(
        stamped.get("capabilities").unwrap().get("ui"),
        Some(JsonValue::Bool(false))
    ));
    assert_eq!(stamped.get("session_id").unwrap().as_str(), Some("session"));
    match stamped.get("api_version").unwrap() {
        JsonValue::Number(n) => assert_eq!((n.as_u64, n.text.as_str()), (Some(2), "2")),
        _ => panic!("api_version is not a number"),
    }
    let v2ui = manifest(2, true, "shape", vec!["python3"]);
    let stamped = request_envelope(JsonValue::Null, &v2ui, "session", true);
    assert!(matches!(stamped.get("capabilities").unwrap().get("ui"), Some(JsonValue::Bool(true))));
}
