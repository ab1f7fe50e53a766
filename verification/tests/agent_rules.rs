use koala::agent::permissions::{Permissions, Policy};
use koala::agent::plan::{TodoItem, TodoList, TodoStatus};
use koala::agent::tools::catalog::read_only_shell;
use koala::agent::tools::files::{apply_edits, Replacement};
use koala::config::{PermissionMode, PermissionsConfig};
use koala::i18n::Lang;

#[test]
fn levels_apply_to_safe_and_unknown_tools() {
    let mut p = Permissions::new(&PermissionsConfig::default());
    for safe in [true, false] {
        assert_eq!(p.check("tool", safe), Policy::Ask);
    }
    p.set_mode(PermissionMode::AskWhenNeed);
    assert_eq!(p.check("tool", true), Policy::Allow);
    assert_eq!(p.check("tool", false), Policy::Ask);
    p.set_mode(PermissionMode::NeverAsk);
    assert_eq!(p.check("unknown", false), Policy::Allow);
    p.set_mode(PermissionMode::Normal);
    assert_eq!(p.check("tool", true), Policy::Ask);
}

#[test]
fn normal_ignores_allow_and_never_ask_overrides_all_rules() {
    let mut p = Permissions::new(&PermissionsConfig {
        allow: vec!["bash".into()],
        deny: vec!["bash".into()],
        ..Default::default()
    });
    assert_eq!(p.check("bash", false), Policy::Deny);
    p.set_mode(PermissionMode::AskWhenNeed);
    assert_eq!(p.check("bash", false), Policy::Deny);
    p.set_mode(PermissionMode::NeverAsk);
    assert_eq!(p.check("bash", false), Policy::Allow);
    let mut trusted = Permissions::new(&PermissionsConfig {
        allow: vec!["bash".into()],
        ..Default::default()
    });
    assert_eq!(trusted.check("bash", false), Policy::Ask);
    trusted.set_mode(PermissionMode::AskWhenNeed);
    assert_eq!(trusted.check("bash", false), Policy::Allow);
}

#[test]
fn auto_edit_allows_trusted_and_automatic_tools_only() {
    let mut p = Permissions::new(&PermissionsConfig {
        allow: vec!["write".into()],
        ..Default::default()
    });
    p.set_mode(PermissionMode::AutoEdit);
    assert_eq!(p.mode(), PermissionMode::AutoEdit);
    assert_eq!(p.check("write", false), Policy::Allow);
    assert_eq!(p.check("edit", true), Policy::Allow);
    assert_eq!(p.check("bash", false), Policy::Ask);
}

#[test]
fn replace_and_render() {
    let mut list = TodoList::default();
    assert!(list.is_empty());
    list.replace(vec![
        TodoItem { content: "a".into(), status: TodoStatus::Done },
        TodoItem { content: "b".into(), status: TodoStatus::InProgress },
        TodoItem { content: "c".into(), status: TodoStatus::Pending },
    ]);
    assert_eq!(list.render_prompt(), "1. [x] a\n2. [~] b\n3. [ ] c");
}

#[test]
fn empty_todo_list_renders_nothing() {
    let list = TodoList::default();
    assert_eq!(list.render_prompt(), "");
}

#[test]
fn shell_approval_cannot_be_bypassed_with_composition_or_expansion() {
    for command in [
        "ls; rm x",
        "ls\nrm x",
        "cat $(touch x)",
        "ls `touch x`",
        "ls > x",
        "cat a | sh",
        "ls && rm x",
        "ls || rm x",
        "ls &",
        "ls${IFS}x",
        "env ls",
        "bash -c ls",
        "python script.py",
        "curl example.com",
        "sudo ls",
        "",
    ] {
        assert!(!read_only_shell(command), "{command:?}");
    }
    for command in ["pwd", "ls -la", "cat src/main.rs", "head -n 10 README.md", "wc -l README.md"] {
        assert!(read_only_shell(command), "{command}");
    }
}

#[test]
fn read_only_shell_accepts_leading_spaces_and_rejects_lookalikes() {
    assert!(read_only_shell("  tail -n 5 log.txt"));
    assert!(!read_only_shell("   "));
    assert!(!read_only_shell("lsof"));
    assert!(!read_only_shell("ls\tx"));
}

#[test]
fn permission_descriptions_follow_the_language() {
    for mode in PermissionMode::ALL {
        assert_ne!(mode.description(Lang::En), mode.description(Lang::Zh));
    }
}

#[test]
fn language_codes_round_trip_and_toggle() {
    for lang in Lang::ALL {
        assert_eq!(Lang::parse(lang.code()), Some(lang));
        assert_eq!(lang.toggled().toggled(), lang);
        assert_ne!(lang.toggled(), lang);
    }
    assert_eq!(Lang::default(), Lang::En);
    assert_eq!(Lang::parse("ZH-CN"), Some(Lang::Zh));
    assert_eq!(Lang::parse("klingon"), None);
}

fn replacement(old: &str, new: &str) -> Replacement {
    Replacement { old_text: old.into(), new_text: new.into() }
}

#[test]
fn replacements_use_original_text_and_reject_ambiguous_or_overlapping_matches() {
    assert_eq!(
        apply_edits("alpha beta", &[replacement("alpha", "beta"), replacement("beta", "gamma")]).unwrap(),
        "beta gamma"
    );
    assert_eq!(
        apply_edits("\u{feff}甲\r\n乙\r\n", &[replacement("乙", "丙")]).unwrap(),
        "\u{feff}甲\r\n丙\r\n"
    );
    for (original, edits) in [
        ("aaa", vec![replacement("aa", "x")]),
        ("abcdef", vec![replacement("abc", "x"), replacement("cde", "y")]),
        ("abcdef", vec![replacement("abc", "x"), replacement("abc", "y")]),
        ("abc", vec![replacement("", "x")]),
        ("abc", vec![]),
        ("abc", vec![replacement("absent", "x")]),
    ] {
        assert!(apply_edits(original, &edits).is_err());
    }
}

#[test]
fn edit_errors_name_the_first_failing_edit() {
    assert_eq!(
        apply_edits("abc", &[replacement("a", "x"), replacement("zz", "y")]).unwrap_err(),
        "edits[1].oldText was not found; read the file again"
    );
    assert_eq!(
        apply_edits("abab", &[replacement("ab", "x")]).unwrap_err(),
        "edits[0].oldText is not unique; include more surrounding text"
    );
    assert_eq!(apply_edits("abc", &[replacement("", "x")]).unwrap_err(), "edits[0].oldText must not be empty");
    assert_eq!(apply_edits("abc", &[]).unwrap_err(), "edits must contain at least one replacement");
    assert_eq!(
        apply_edits("abcdef", &[replacement("bcd", "x"), replacement("cd", "y")]).unwrap_err(),
        "edits overlap; merge overlapping changes into one replacement"
    );
    assert_eq!(apply_edits("one two three", &[replacement("three", "3"), replacement("one", "1")]).unwrap(), "1 two 3");
}
