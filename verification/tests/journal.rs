use koala::agent::plan::{TodoItem, TodoStatus};
use koala::agent::work::{committed_len, restore, Entry, Journal, Trace};
use koala::llm::{FunctionCall, Message, ToolCall};

fn call(id: &str) -> ToolCall {
    ToolCall {
        id: id.into(),
        kind: "function".into(),
        function: FunctionCall { name: "bash".into(), arguments: "{}".into() },
    }
}

#[test]
fn unfinished_tool_protocol_is_closed_and_latest_todo_survives() {
    let journal = Journal::new("/tmp/session.work");
    let mut assistant = Message::assistant("");
    assistant.content = None;
    assistant.tool_calls = Some(vec![call("one"), call("two")]);
    let entries = vec![
        journal.context(vec![Message::user("work"), assistant, Message::tool("one", "done")], vec![]),
        journal.trace(Trace::Todos(vec![TodoItem { content: "still pending".into(), status: TodoStatus::InProgress }])),
    ];
    let state = restore(entries);
    assert_eq!(state.messages.len(), 4);
    assert_eq!(state.messages[3].tool_call_id.as_deref(), Some("two"));
    assert!(state.messages[3].content.as_ref().unwrap().contains("outcome unknown"));
    assert_eq!(state.todos.len(), 1);
    assert_eq!(state.trace.len(), 1);
}

#[test]
fn streamed_text_becomes_assistant_messages_between_user_turns() {
    let journal = Journal::new("j");
    let state = restore(vec![
        journal.trace(Trace::User("unfinished first turn".into())),
        journal.trace(Trace::Text("partial ".into())),
        journal.trace(Trace::Text("response".into())),
        journal.trace(Trace::User("second".into())),
        journal.trace(Trace::Text("tail".into())),
    ]);
    let texts: Vec<(&str, &str)> =
        state.messages.iter().map(|m| (m.role.as_str(), m.content.as_deref().unwrap())).collect();
    assert_eq!(
        texts,
        [("user", "unfinished first turn"), ("assistant", "partial response"), ("user", "second"), ("assistant", "tail")]
    );
    assert_eq!(state.trace.len(), 5);
}

#[test]
fn context_snapshots_drop_system_prompts_and_replace_history() {
    let journal = Journal::new("j");
    let entry = journal.context(vec![Message::system("sys"), Message::user("hi")], vec![]);
    match &entry {
        Entry::Context { messages, .. } => {
            assert_eq!(messages.len(), 1);
            assert_eq!(messages[0].role, "user");
        }
        _ => panic!("expected a context entry"),
    }
    let state = restore(vec![journal.trace(Trace::Text("lost".into())), entry, journal.tasks(vec![])]);
    assert_eq!(state.messages.len(), 1);
    assert!(state.tasks.is_empty());
}

#[test]
fn only_newline_terminated_entries_are_committed() {
    assert_eq!(committed_len(b"{\"a\":1}\n{\"Trace\":\"\xf0\x9f"), 8);
    assert_eq!(committed_len(b"no newline"), 0);
    assert_eq!(committed_len(b"a\nb\n"), 4);
    assert_eq!(committed_len(b""), 0);
}
