use koala::agent::plan::{TodoItem, TodoList, TodoStatus};
use koala::agent::skills::{Skill, Skills};
use koala::agent::tools::front::{remember_answer, remember_text, skill_answer, started_answer, todo_write};
use koala::json::JsonValue;

fn args(key: &str, value: JsonValue) -> JsonValue {
    JsonValue::Object(vec![(key.to_string(), value)])
}

#[test]
fn remember_needs_non_blank_text() {
    let a = args("text", JsonValue::Str("use Rust".into()));
    assert_eq!(remember_text(&a).unwrap(), "use Rust");
    let blank = args("text", JsonValue::Str("  \n".into()));
    assert_eq!(remember_text(&blank).unwrap_err().content, "text must not be empty");
    let wrong = args("text", JsonValue::Bool(true));
    assert_eq!(remember_text(&wrong).unwrap_err().content, "text must be a string");
    assert_eq!(remember_answer(Ok(())).content, "remembered");
    let failed = remember_answer(Err("disk full".into()));
    assert!(failed.is_error);
    assert_eq!(failed.content, "remember failed: disk full");
}

#[test]
fn skills_load_by_name() {
    let skills = Skills::load_from(vec![Skill {
        name: "review".into(),
        description: "d".into(),
        path: "/s/review/SKILL.md".into(),
        body: "Check things.".into(),
    }]);
    let ok = skill_answer(&skills, &args("name", JsonValue::Str("review".into())));
    assert!(!ok.is_error);
    assert_eq!(ok.content, "Skill file: /s/review/SKILL.md\n\nCheck things.");
    let missing = skill_answer(&skills, &args("name", JsonValue::Str("other".into())));
    assert_eq!(missing.content, "unknown skill: other");
    assert!(missing.is_error);
    let wrong = skill_answer(&skills, &JsonValue::Null);
    assert_eq!(wrong.content, "name must be a string");
}

#[test]
fn todo_write_refuses_blank_items() {
    let mut list = TodoList::default();
    let r = todo_write(&mut list, vec![
        TodoItem { content: "plan".into(), status: TodoStatus::InProgress },
        TodoItem { content: "ship".into(), status: TodoStatus::Pending },
    ]);
    assert!(!r.is_error);
    assert_eq!(r.content, "todo list updated (2 items)");
    assert_eq!(list.items.len(), 2);
    let r = todo_write(&mut list, vec![TodoItem { content: " ".into(), status: TodoStatus::Pending }]);
    assert!(r.is_error);
    assert_eq!(r.content, "todo content must not be empty");
    assert_eq!(list.items.len(), 2);
    assert_eq!(started_answer(7).content, "background task #7 started");
}
