use koala::agent::tools::sections::{prompt_sections, ToolPrompt};
use koala::agent::permissions::{Permissions, Policy};
use koala::agent::tools::catalog::Capabilities;
use koala::config::{PermissionMode, PermissionsConfig};
use koala::json::JsonValue;

fn object(members: &[(&str, &str)]) -> JsonValue {
    JsonValue::Object(
        members
            .iter()
            .map(|(k, v)| (k.to_string(), JsonValue::Str(v.to_string())))
            .collect(),
    )
}

fn extension_tools() -> Vec<(String, bool)> {
    vec![("echo".to_string(), true), ("save".to_string(), false)]
}

#[test]
fn capabilities_keep_approval_distinct_from_plan_mode() {
    let catalog = Capabilities::build(0, &extension_tools());
    let permissions = Permissions::new(&PermissionsConfig {
        mode: PermissionMode::AskWhenNeed,
        ..Default::default()
    });
    for (name, args, policy, plan) in [
        ("read", object(&[]), Policy::Allow, true),
        ("edit", object(&[]), Policy::Ask, false),
        ("write", object(&[]), Policy::Ask, false),
        ("remember", object(&[]), Policy::Allow, false),
        ("todo_write", object(&[]), Policy::Allow, true),
        ("skill", object(&[]), Policy::Allow, true),
        ("task", object(&[]), Policy::Allow, true),
        ("bash", object(&[("command", "ls")]), Policy::Allow, false),
        ("bash", object(&[("command", "ls; touch marker")]), Policy::Ask, false),
        ("echo", object(&[]), Policy::Allow, true),
        ("save", object(&[]), Policy::Ask, false),
        ("unknown", object(&[]), Policy::Ask, false),
    ] {
        assert_eq!(catalog.policy(&permissions, name, &args, false), policy, "{name}");
        assert_eq!(catalog.plan_allowed(name), plan, "{name}");
    }
    let child = Capabilities::build(1, &extension_tools());
    assert!(!child.names_for_mode(false).iter().any(|name| name == "task"));
    assert!(!child.plan_allowed("task"));
    assert_eq!(child.policy(&permissions, "task", &object(&[]), false), Policy::Ask);
}

#[test]
fn subagent_catalog_keeps_extension_tools_but_not_task() {
    let child = Capabilities::build(1, &extension_tools());
    let names = child.names_for_mode(false);
    assert!(names.iter().any(|name| name == "echo"));
    assert!(names.iter().any(|name| name == "todo_write"));
    assert!(!names.iter().any(|name| name == "task"));
}

#[test]
fn plan_mode_offers_only_plan_tools_in_order() {
    let catalog = Capabilities::build(0, &extension_tools());
    assert_eq!(
        catalog.names_for_mode(true),
        vec!["background_tasks", "read", "recall", "todo_write", "skill", "task", "echo"]
    );
    assert_eq!(catalog.names_for_mode(false).len(), 12);
}

#[test]
fn auto_edit_allows_workspace_edits_with_a_path_only() {
    let catalog = Capabilities::build(0, &Vec::new());
    let permissions = Permissions::new(&PermissionsConfig {
        mode: PermissionMode::AutoEdit,
        ..Default::default()
    });
    for name in ["edit", "write"] {
        assert_eq!(catalog.policy(&permissions, name, &object(&[("path", "a.txt")]), true), Policy::Allow);
        assert_eq!(catalog.policy(&permissions, name, &object(&[("path", "../b")]), false), Policy::Ask);
        assert_eq!(catalog.policy(&permissions, name, &object(&[]), true), Policy::Ask);
    }
    let asking = Permissions::new(&PermissionsConfig {
        mode: PermissionMode::AskWhenNeed,
        ..Default::default()
    });
    assert_eq!(catalog.policy(&asking, "edit", &object(&[("path", "a.txt")]), true), Policy::Ask);
}

#[test]
fn memory_controls_drop_remember_and_recall() {
    let catalog = Capabilities::build(0, &Vec::new()).with_memory_controls(false, false);
    let names = catalog.names_for_mode(false);
    assert!(!names.iter().any(|name| name == "remember" || name == "recall"));
    assert_eq!(names.len(), 8);
    let writing = Capabilities::build(0, &Vec::new()).with_memory_controls(false, true);
    assert!(writing.names_for_mode(false).iter().any(|name| name == "remember"));
    assert!(!writing.plan_allowed("recall"));
}

#[test]
fn never_ask_allows_and_deny_lists_win() {
    let catalog = Capabilities::build(0, &Vec::new());
    let never = Permissions::new(&PermissionsConfig {
        mode: PermissionMode::NeverAsk,
        ..Default::default()
    });
    assert_eq!(catalog.policy(&never, "bash", &object(&[("command", "rm -rf x")]), false), Policy::Allow);
    let deny = Permissions::new(&PermissionsConfig {
        mode: PermissionMode::AskWhenNeed,
        allow: Vec::new(),
        deny: vec!["read".to_string()],
    });
    assert_eq!(catalog.policy(&deny, "read", &object(&[]), false), Policy::Deny);
}

fn tool_prompt(name: &str, snippet: &str, guidelines: &str, plan_allowed: bool) -> ToolPrompt {
    ToolPrompt {
        name: name.to_string(),
        snippet: snippet.to_string(),
        guidelines: guidelines.to_string(),
        plan_allowed,
    }
}

#[test]
fn prompt_sections_list_offered_tools_and_unique_rules() {
    let tools = vec![
        tool_prompt("read", "Read a file", "  Read before editing.\n\nPrefer small windows.\n", true),
        tool_prompt("write", "Write a file", "Read before editing.\nNever write secrets.", false),
        tool_prompt("memory", "Search memory", "", true),
    ];
    let (text, rules) = prompt_sections(&tools, false);
    assert_eq!(text, "- read: Read a file\n- write: Write a file\n- memory: Search memory");
    assert_eq!(rules, vec!["Read before editing.", "Prefer small windows.", "Never write secrets."]);
    let (text, rules) = prompt_sections(&tools, true);
    assert_eq!(text, "- read: Read a file\n- memory: Search memory");
    assert_eq!(rules, vec!["Read before editing.", "Prefer small windows."]);
    let (text, rules) = prompt_sections(&vec![], false);
    assert_eq!(text, "");
    assert!(rules.is_empty());
}
