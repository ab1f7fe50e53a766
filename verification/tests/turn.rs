use koala::agent::call::{CallAction, CallEvent, CallPhase, CallState};
use koala::agent::hooks::HookOutcome;
use koala::agent::permissions::Policy;
use koala::agent::tools::ToolResult;
use koala::agent::turn::{Phase, TurnAction, TurnEvent, TurnFailure, TurnState};
use koala::llm::{FunctionCall, Message, ToolCall};

fn call(id: &str, name: &str) -> ToolCall {
    ToolCall {
        id: id.into(),
        kind: "function".into(),
        function: FunctionCall { name: name.into(), arguments: "{}".into() },
    }
}

fn with_calls(calls: Vec<ToolCall>) -> Message {
    let mut m = Message::assistant("");
    m.content = None;
    m.tool_calls = Some(calls);
    m
}

#[test]
fn tool_round_answers_every_call_then_asks_again() {
    let mut t = TurnState::new(vec![Message::user("hi")], Some(1), 100_000);
    assert_eq!(t.phase(), Phase::Prepare);
    assert!(matches!(t.turn_step(TurnEvent::System { system: "sys".into() }), TurnAction::Measure));
    assert_eq!(t.messages()[0].role, "system");
    assert!(matches!(t.turn_step(TurnEvent::Measured { used: 10 }), TurnAction::Request));
    let a = t.turn_step(TurnEvent::Reply { message: with_calls(vec![call("a", "read"), call("b", "grep")]) });
    assert!(matches!(a, TurnAction::RunTool { index: 0 }));
    assert_eq!(t.call(0).id, "a");
    assert!(matches!(t.turn_step(TurnEvent::ToolDone { content: "one".into() }), TurnAction::RunTool { index: 1 }));
    assert_eq!(t.call(1).id, "b");
    assert!(matches!(t.turn_step(TurnEvent::ToolDone { content: "two".into() }), TurnAction::Prepare));
    let m = t.messages();
    assert_eq!(m.len(), 5);
    assert_eq!(m[3].tool_call_id.as_deref(), Some("a"));
    assert_eq!(m[3].content.as_deref(), Some("one"));
    assert_eq!(m[4].tool_call_id.as_deref(), Some("b"));
    assert!(matches!(t.turn_step(TurnEvent::System { system: "sys2".into() }), TurnAction::Measure));
    assert_eq!(t.messages().len(), 5);
    assert!(matches!(t.turn_step(TurnEvent::Measured { used: 10 }), TurnAction::Request));
    let a = t.turn_step(TurnEvent::Reply { message: with_calls(vec![call("c", "read")]) });
    assert!(matches!(a, TurnAction::Fail(TurnFailure::RoundLimit(1))));
    assert_eq!(t.phase(), Phase::Done);
}

#[test]
fn final_reply_finishes_with_its_text() {
    let mut t = TurnState::new(vec![Message::user("hi")], None, 100);
    t.turn_step(TurnEvent::System { system: "s".into() });
    t.turn_step(TurnEvent::Measured { used: 100 });
    match t.turn_step(TurnEvent::Reply { message: Message::assistant("done") }) {
        TurnAction::Finish { text } => assert_eq!(text, "done"),
        other => panic!("unexpected {other:?}"),
    }
    assert_eq!(t.into_messages().len(), 3);
}

#[test]
fn over_budget_compacts_twice_then_fails() {
    let mut t = TurnState::new(vec![Message::user("hi")], None, 100);
    t.turn_step(TurnEvent::System { system: "s".into() });
    assert!(matches!(t.turn_step(TurnEvent::Measured { used: 101 }), TurnAction::Compact { keep: 4 }));
    assert!(matches!(t.turn_step(TurnEvent::Compacted { history: Some(vec![Message::user("short")]) }), TurnAction::Prepare));
    assert_eq!(t.messages().len(), 1);
    t.turn_step(TurnEvent::System { system: "s".into() });
    assert!(matches!(t.turn_step(TurnEvent::Measured { used: 200 }), TurnAction::Compact { keep: 1 }));
    t.turn_step(TurnEvent::Compacted { history: None });
    t.turn_step(TurnEvent::System { system: "s".into() });
    let a = t.turn_step(TurnEvent::Measured { used: 300 });
    assert!(matches!(a, TurnAction::Fail(TurnFailure::ContextBudget { used: 300, limit: 100 })));
}

#[test]
fn calls_run_only_after_hooks_and_approval() {
    let (mut c, a) = CallState::start("bash".into(), "{\"command\":\"ls\"}".into());
    assert!(matches!(a, CallAction::Extensions));
    assert!(matches!(c.call_step(CallEvent::Extensions { reply: Ok(None) }), CallAction::Hooks));
    assert!(matches!(c.call_step(CallEvent::Hooks { outcome: HookOutcome::Passed }), CallAction::Check));
    match c.call_step(CallEvent::Checked { plan_mode: false, plan_allowed: false, policy: Policy::Ask }) {
        CallAction::AskApproval { text } => assert!(text.starts_with("bash(")),
        other => panic!("unexpected {other:?}"),
    }
    assert!(matches!(c.call_step(CallEvent::Approval { answer: Some(true) }), CallAction::Run));
    match c.call_step(CallEvent::Ran { result: ToolResult::ok("out") }) {
        CallAction::Answer(r) => assert_eq!(r.content, "out"),
        other => panic!("unexpected {other:?}"),
    }
    assert_eq!(c.phase(), CallPhase::Done);

    let (_, a) = CallState::start("bash".into(), "[1]".into());
    match a {
        CallAction::Answer(r) => assert_eq!(r.content, "invalid arguments: expected JSON object"),
        other => panic!("unexpected {other:?}"),
    }
    let (mut c, _) = CallState::start("write".into(), "{}".into());
    c.call_step(CallEvent::Extensions { reply: Ok(None) });
    match c.call_step(CallEvent::Hooks { outcome: HookOutcome::Blocked("no".into()) }) {
        CallAction::Answer(r) => assert_eq!(r.content, "blocked by hook: no"),
        other => panic!("unexpected {other:?}"),
    }
    let (mut c, _) = CallState::start("write".into(), "{}".into());
    c.call_step(CallEvent::Extensions { reply: Ok(None) });
    c.call_step(CallEvent::Hooks { outcome: HookOutcome::Passed });
    match c.call_step(CallEvent::Checked { plan_mode: true, plan_allowed: false, policy: Policy::Allow }) {
        CallAction::Answer(r) => assert_eq!(r.content, "plan mode: write is read-only-restricted; finish planning first"),
        other => panic!("unexpected {other:?}"),
    }
    let (mut c, _) = CallState::start("write".into(), "{}".into());
    c.call_step(CallEvent::Extensions { reply: Ok(None) });
    c.call_step(CallEvent::Hooks { outcome: HookOutcome::Passed });
    c.call_step(CallEvent::Checked { plan_mode: false, plan_allowed: true, policy: Policy::Ask });
    match c.call_step(CallEvent::Approval { answer: None }) {
        CallAction::Answer(r) => assert_eq!(r.content, "user rejected: write"),
        other => panic!("unexpected {other:?}"),
    }
}
