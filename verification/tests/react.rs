use koala::agent::hooks::{hook_outcome, HookOutcome};
use koala::agent::permissions::Policy;
use koala::agent::react::{
    add_context, after_extension, after_reply, approval_refusal, budget_step, check_arguments, gate,
    install_system, pre_hook_refusal, request_bytes, BudgetStep, Gate, ReplyStep, RoundBudget,
    KEEP_RECENT,
};
use koala::json::JsonValue;
use koala::llm::Message;

#[test]
fn system_message_is_replaced_or_inserted() {
    let mut messages = vec![Message::system("old"), Message::user("hi")];
    install_system(&mut messages, "new");
    assert_eq!(messages.len(), 2);
    assert_eq!(messages[0].content.as_deref(), Some("new"));
    assert_eq!(messages[1].content.as_deref(), Some("hi"));
    let mut fresh = vec![Message::user("hi")];
    install_system(&mut fresh, "sys");
    assert_eq!(fresh.len(), 2);
    assert_eq!(fresh[0].role, "system");
    assert_eq!(fresh[1].role, "user");
}

#[test]
fn context_joins_the_system_message_as_a_section() {
    let mut request = vec![Message::system("base"), Message::user("q")];
    add_context(&mut request, "background_results", "task 1 done");
    assert_eq!(
        request[0].content.as_deref(),
        Some("base\n\n<background_results>\ntask 1 done\n</background_results>")
    );
    let mut bare = vec![Message::user("q")];
    add_context(&mut bare, "extension_context", "ctx");
    assert_eq!(bare.len(), 2);
    assert_eq!(bare[0].role, "system");
    assert_eq!(bare[0].content.as_deref(), Some("ctx"));
}

#[test]
fn budget_compacts_twice_then_fails() {
    assert_eq!(request_bytes(100, 20), 4216);
    assert_eq!(budget_step(100, 100, 0), BudgetStep::Send);
    assert_eq!(budget_step(101, 100, 0), BudgetStep::Compact { keep: KEEP_RECENT });
    assert_eq!(budget_step(101, 100, 1), BudgetStep::Compact { keep: 1 });
    assert_eq!(budget_step(101, 100, 2), BudgetStep::Exceeded);
    assert_eq!(budget_step(50, 100, 2), BudgetStep::Send);
}

#[test]
fn round_budget_allows_a_final_answer_after_the_last_round() {
    let mut budget = RoundBudget::new(Some(1));
    assert_eq!(after_reply(2, &mut budget), ReplyStep::RunTools);
    assert_eq!(budget.remaining(), Some(0));
    assert_eq!(after_reply(0, &mut budget), ReplyStep::Finish);
    assert_eq!(after_reply(1, &mut budget), ReplyStep::RoundLimit(1));
}

#[test]
fn zero_round_budget_allows_text_but_no_tools() {
    let mut budget = RoundBudget::new(Some(0));
    assert_eq!(after_reply(0, &mut budget), ReplyStep::Finish);
    assert_eq!(after_reply(1, &mut budget), ReplyStep::RoundLimit(0));
}

#[test]
fn unlimited_round_budget_keeps_running() {
    let mut budget = RoundBudget::new(None);
    for _ in 0..100 {
        assert_eq!(after_reply(1, &mut budget), ReplyStep::RunTools);
    }
    assert_eq!(budget.remaining(), None);
}

#[test]
fn arguments_must_be_an_object() {
    assert!(check_arguments(r#"{"a":1}"#).is_ok());
    for bad in ["[1]", "3", "nope", ""] {
        let err = check_arguments(bad).unwrap_err();
        assert!(err.is_error);
        assert_eq!(err.content, "invalid arguments: expected JSON object");
    }
}

#[test]
fn extension_hook_replaces_or_refuses_arguments() {
    let args = JsonValue::Object(vec![]);
    let (a, t) = after_extension(args, "{}".into(), Ok(None)).unwrap();
    assert!(matches!(a, JsonValue::Object(ref m) if m.is_empty()));
    assert_eq!(t, "{}");
    let replacement = JsonValue::Object(vec![("command".into(), JsonValue::Str("ls".into()))]);
    let (_, t) = after_extension(JsonValue::Null, "{}".into(), Ok(Some(replacement))).unwrap();
    assert_eq!(t, r#"{"command":"ls"}"#);
    let err = after_extension(JsonValue::Null, "{}".into(), Err("nope".into())).unwrap_err();
    assert!(err.is_error);
    assert_eq!(err.content, "nope");
}

#[test]
fn hook_exit_codes() {
    assert_eq!(hook_outcome(Some(0), "ignored"), HookOutcome::Passed);
    assert_eq!(hook_outcome(Some(2), "  nope \n"), HookOutcome::Blocked("nope".into()));
    assert_eq!(hook_outcome(Some(3), "bad"), HookOutcome::Failed("exit 3: bad".into()));
    assert_eq!(hook_outcome(None, ""), HookOutcome::Failed("exit -1: ".into()));
    assert!(hook_outcome(Some(0), "").is_ok());
}

#[test]
fn pre_hook_outcomes_stop_the_call() {
    assert!(pre_hook_refusal(&HookOutcome::Passed).is_none());
    assert_eq!(
        pre_hook_refusal(&HookOutcome::Blocked("no".into())).unwrap().content,
        "blocked by hook: no"
    );
    assert_eq!(
        pre_hook_refusal(&HookOutcome::Failed("exit 1: x".into())).unwrap().content,
        "pre-tool hook failed; execution blocked: exit 1: x"
    );
}

#[test]
fn gate_applies_plan_mode_then_policy() {
    match gate(true, false, Policy::Allow, "edit", "{}") {
        Gate::Refuse(e) => {
            assert_eq!(e.content, "plan mode: edit is read-only-restricted; finish planning first")
        }
        _ => panic!("plan mode must refuse"),
    }
    match gate(false, false, Policy::Deny, "bash", "{}") {
        Gate::Refuse(e) => assert_eq!(e.content, "permission denied: bash"),
        _ => panic!("deny must refuse"),
    }
    match gate(true, true, Policy::Ask, "bash", r#"{"command":"ls"}"#) {
        Gate::Ask(text) => assert_eq!(text, "bash(ls)\n{\"command\":\"ls\"}"),
        _ => panic!("ask must ask"),
    }
    assert!(matches!(gate(false, true, Policy::Allow, "read", "{}"), Gate::Run));
    assert!(approval_refusal(Some(true), "bash").is_none());
    assert_eq!(approval_refusal(Some(false), "bash").unwrap().content, "user rejected: bash");
    assert_eq!(approval_refusal(None, "bash").unwrap().content, "user rejected: bash");
}
