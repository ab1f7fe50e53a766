//! The decisions of the ReAct loop: the system message, the context budget,
//! the tool-round budget and the checks a tool call passes before it runs.
//! The loop itself, which streams from the model and runs tools, drives these.
use vstd::prelude::*;
use crate::llm::{Message, plain_message, content_text};
use crate::json::{JsonValue, json_parse, parse_json, json_text, to_json_text};
use crate::text::push_str;
use super::permissions::Policy;
use super::hooks::{HookOutcome, HookOutcomeV};
use super::prompt::{append_section, section};
use super::tools::{ToolResult, summarize_args, args_summary, args_document, shortened};

verus! {

pub use super::compact::KEEP_RECENT;

/// Bytes reserved for the model's response in the context budget.
pub const RESPONSE_RESERVE: usize = 4096;

/// Puts the fresh system message first: it replaces a leading system message,
/// or is inserted before the history.
pub fn install_system(messages: &mut Vec<Message>, system: &str)
    ensures
        plain_message(final(messages)@[0], "system"@, system@),
        final(messages)@[0].tool_call_id is None,
        old(messages)@.len() > 0 && old(messages)@[0].role@ == "system"@ ==> {
            &&& final(messages)@.len() == old(messages)@.len()
            &&& forall|i: int| 1 <= i < old(messages)@.len() ==> final(messages)@[i] == old(messages)@[i]
        },
        !(old(messages)@.len() > 0 && old(messages)@[0].role@ == "system"@) ==> {
            &&& final(messages)@.len() == old(messages)@.len() + 1
            &&& forall|i: int| 0 <= i < old(messages)@.len() ==> final(messages)@[i + 1] == old(messages)@[i]
        },
{
    let replace = messages.len() > 0 && crate::json::str_eq(messages[0].role.as_str(), "system");
    if replace {
        let _old = messages.remove(0);
    }
    messages.insert(0, Message::system(system));
}

/// Adds a block of context to a request: as a tagged section of the leading
/// system message, or as a system message of its own where there is none.
pub fn add_context(request: &mut Vec<Message>, name: &str, context: &str)
    ensures
        old(request)@.len() > 0 && old(request)@[0].role@ == "system"@ ==> {
            let first = final(request)@[0];
            let was = old(request)@[0];
            &&& final(request)@.len() == old(request)@.len()
            &&& forall|i: int| 1 <= i < old(request)@.len() ==> final(request)@[i] == old(request)@[i]
            &&& first.role == was.role
            &&& first.content matches Some(c) && c@ == content_text(was.content) + section(name@, context@)
            &&& first.images == was.images
            &&& first.reasoning_content == was.reasoning_content
            &&& first.tool_calls == was.tool_calls
            &&& first.tool_call_id == was.tool_call_id
            &&& first.name == was.name
        },
        !(old(request)@.len() > 0 && old(request)@[0].role@ == "system"@) ==> {
            &&& final(request)@.len() == old(request)@.len() + 1
            &&& plain_message(final(request)@[0], "system"@, context@)
            &&& final(request)@[0].tool_call_id is None
            &&& forall|i: int| 0 <= i < old(request)@.len() ==> final(request)@[i + 1] == old(request)@[i]
        },
{
    if request.len() > 0 && crate::json::str_eq(request[0].role.as_str(), "system") {
        let first = request.remove(0);
        let mut text = match first.content {
            Some(c) => c,
            None => String::new(),
        };
        append_section(&mut text, name, context);
        let m = Message {
            role: first.role,
            content: Some(text),
            images: first.images,
            reasoning_content: first.reasoning_content,
            tool_calls: first.tool_calls,
            tool_call_id: first.tool_call_id,
            name: first.name,
        };
        request.insert(0, m);
    } else {
        request.insert(0, Message::system(context));
    }
}

/// The bytes a request takes against the budget: its serialized messages and
/// tool definitions, and room for the response.
pub fn request_bytes(messages_bytes: usize, tools_bytes: usize) -> (r: usize)
    requires
        messages_bytes + tools_bytes + RESPONSE_RESERVE <= usize::MAX,
    ensures
        r == messages_bytes + tools_bytes + RESPONSE_RESERVE,
{
    messages_bytes + tools_bytes + RESPONSE_RESERVE
}

/// What to do with a request of a given size.
#[derive(Debug, Clone, Copy, PartialEq, Eq, Structural)]
pub enum BudgetStep {
    /// It fits: send it.
    Send,
    /// Too large: compact the history, keeping this many recent messages.
    Compact { keep: usize },
    /// Still too large after two compactions in a row: give up.
    Exceeded,
}

pub open spec fn budget_spec(used: nat, limit: nat, attempts: nat) -> BudgetStep {
    if used <= limit {
        BudgetStep::Send
    } else if attempts >= 2 {
        BudgetStep::Exceeded
    } else if attempts == 0 {
        BudgetStep::Compact { keep: KEEP_RECENT }
    } else {
        BudgetStep::Compact { keep: 1 }
    }
}

/// The budget decision before each request; `attempts` counts the compactions
/// since the last request that fitted.
pub fn budget_step(used: usize, limit: usize, attempts: usize) -> (r: BudgetStep)
    ensures
        r == budget_spec(used as nat, limit as nat, attempts as nat),
{
    if used <= limit {
        BudgetStep::Send
    } else if attempts >= 2 {
        BudgetStep::Exceeded
    } else if attempts == 0 {
        BudgetStep::Compact { keep: KEEP_RECENT }
    } else {
        BudgetStep::Compact { keep: 1 }
    }
}

/// A request over the budget is never sent, and at most two compactions are
/// tried before the turn fails.
pub proof fn law_over_budget_is_never_sent(used: nat, limit: nat, attempts: nat)
    ensures
        used > limit ==> budget_spec(used, limit, attempts) != BudgetStep::Send,
        used <= limit ==> budget_spec(used, limit, attempts) == BudgetStep::Send,
        attempts >= 2 && used > limit ==> budget_spec(used, limit, attempts) == BudgetStep::Exceeded,
        attempts < 2 && used > limit ==> budget_spec(used, limit, attempts) is Compact,
{
}

/// The tool rounds a turn may still run: none left means the next reply with
/// tool calls ends the turn; `None` means no limit.
pub struct RoundBudget {
    max: Option<usize>,
    remaining: Option<usize>,
}

impl RoundBudget {
    pub closed spec fn wf(&self) -> bool {
        match (self.max, self.remaining) {
            (Some(m), Some(r)) => r <= m,
            (None, None) => true,
            _ => false,
        }
    }

    pub closed spec fn max_spec(&self) -> Option<usize> {
        self.max
    }

    pub closed spec fn remaining_spec(&self) -> Option<usize> {
        self.remaining
    }

    pub fn new(max_rounds: Option<usize>) -> (r: Self)
        ensures
            r.wf(),
            r.max_spec() == max_rounds,
            r.remaining_spec() == max_rounds,
    {
        RoundBudget { max: max_rounds, remaining: max_rounds }
    }

    pub fn remaining(&self) -> (r: Option<usize>)
        ensures
            r == self.remaining_spec(),
    {
        self.remaining
    }

    /// Takes one round for executing tools. With none left it returns the
    /// configured maximum as the error, and nothing changes.
    pub fn spend(&mut self) -> (r: Result<(), usize>)
        requires
            old(self).wf(),
        ensures
            final(self).wf(),
            final(self).max_spec() == old(self).max_spec(),
            match old(self).remaining_spec() {
                None => r is Ok && final(self).remaining_spec() is None,
                Some(n) => if n == 0 {
                    &&& r == Err::<(), usize>(old(self).max_spec().unwrap())
                    &&& final(self).remaining_spec() == Some(0usize)
                } else {
                    &&& r is Ok
                    &&& final(self).remaining_spec() == Some((n - 1) as usize)
                },
            },
    {
        match self.remaining {
            None => Ok(()),
            Some(n) => {
                if n == 0 {
                    match self.max {
                        Some(m) => Err(m),
                        None => Err(0),
                    }
                } else {
                    self.remaining = Some(n - 1);
                    Ok(())
                }
            },
        }
    }
}

/// What the loop does with a finished model reply.
#[derive(Debug, Clone, Copy, PartialEq, Eq, Structural)]
pub enum ReplyStep {
    /// No tool calls: the reply's text is the answer.
    Finish,
    /// Run the tool calls, then ask the model again.
    RunTools,
    /// Tool calls with no rounds left: the turn fails with the limit.
    RoundLimit(usize),
}

/// Decides on a reply with `calls` tool calls, spending a round when tools run.
pub fn after_reply(calls: usize, budget: &mut RoundBudget) -> (r: ReplyStep)
    requires
        old(budget).wf(),
    ensures
        final(budget).wf(),
        final(budget).max_spec() == old(budget).max_spec(),
        calls == 0 ==> r == ReplyStep::Finish && *final(budget) == *old(budget),
        calls > 0 ==> match old(budget).remaining_spec() {
            None => r == ReplyStep::RunTools && final(budget).remaining_spec() is None,
            Some(n) => if n == 0 {
                r == ReplyStep::RoundLimit(old(budget).max_spec().unwrap()) && final(budget).remaining_spec() == Some(0usize)
            } else {
                r == ReplyStep::RunTools && final(budget).remaining_spec() == Some((n - 1) as usize)
            },
        },
{
    if calls == 0 {
        return ReplyStep::Finish;
    }
    match budget.spend() {
        Ok(()) => ReplyStep::RunTools,
        Err(max) => ReplyStep::RoundLimit(max),
    }
}

// ---------------------------------------------------------------------------
// Tool-call checks, in the order they apply.

pub open spec fn is_object(v: JsonValue) -> bool {
    v is Object
}

/// The arguments of a call must be a JSON object.
pub fn check_arguments(arguments: &str) -> (r: Result<JsonValue, ToolResult>)
    ensures
        match json_parse(arguments@) {
            Ok(v) => if is_object(v) {
                r == Ok::<JsonValue, ToolResult>(v)
            } else {
                r matches Err(e) && e.is_error && e.content@ == "invalid arguments: expected JSON object"@
                    && e.display_content is None
            },
            Err(_) => r matches Err(e) && e.is_error && e.content@ == "invalid arguments: expected JSON object"@
                && e.display_content is None,
        },
{
    match parse_json(arguments) {
        Ok(v) => {
            let object = match &v {
                JsonValue::Object(_) => true,
                _ => false,
            };
            if object {
                Ok(v)
            } else {
                Err(ToolResult::err("invalid arguments: expected JSON object"))
            }
        },
        Err(_) => Err(ToolResult::err("invalid arguments: expected JSON object")),
    }
}

/// The arguments after an extension's pre-tool hook: a replacement takes the
/// place of both the document and its text; a refusal ends the call with the
/// extension's reason.
pub fn after_extension(args: JsonValue, arguments: String, reply: Result<Option<JsonValue>, String>) -> (r: Result<
    (JsonValue, String),
    ToolResult,
>)
    ensures
        match reply {
            Ok(None) => r == Ok::<(JsonValue, String), ToolResult>((args, arguments)),
            Ok(Some(v)) => r matches Ok((a, t)) && a == v && t@ == json_text(v),
            Err(reason) => r matches Err(e) && e.is_error && e.content@ == reason@ && e.display_content is None,
        },
{
    match reply {
        Ok(None) => Ok((args, arguments)),
        Ok(Some(v)) => {
            let text = to_json_text(&v);
            Ok((v, text))
        },
        Err(reason) => Err(ToolResult::err(reason.as_str())),
    }
}

/// A user hook's say before a tool runs: a block or a failure stops the call.
pub fn pre_hook_refusal(outcome: &HookOutcome) -> (r: Option<ToolResult>)
    ensures
        match outcome@ {
            HookOutcomeV::Passed => r is None,
            HookOutcomeV::Blocked(reason) => r matches Some(e) && e.is_error && e.content@ == "blocked by hook: "@ + reason
                && e.display_content is None,
            HookOutcomeV::Failed(reason) => r matches Some(e) && e.is_error && e.content@
                == "pre-tool hook failed; execution blocked: "@ + reason && e.display_content is None,
        },
{
    match outcome {
        HookOutcome::Passed => None,
        HookOutcome::Blocked(reason) => {
            let mut text = String::new();
            push_str(&mut text, "blocked by hook: ");
            push_str(&mut text, reason.as_str());
            Some(ToolResult::err(text.as_str()))
        },
        HookOutcome::Failed(reason) => {
            let mut text = String::new();
            push_str(&mut text, "pre-tool hook failed; execution blocked: ");
            push_str(&mut text, reason.as_str());
            Some(ToolResult::err(text.as_str()))
        },
    }
}

/// The last checks before a tool runs.
pub enum Gate {
    /// The call fails with this result and the tool does not run.
    Refuse(ToolResult),
    /// The user must approve first; the text describes the call.
    Ask(String),
    /// The tool runs.
    Run,
}

/// The text of an approval request: the call's summary and its arguments.
pub open spec fn request_text(name: Seq<char>, arguments: Seq<char>) -> Seq<char> {
    name + "("@ + shortened(args_summary(name, args_document(arguments))) + ")\n"@ + arguments
}

/// Plan mode refuses tools it does not keep; then the policy denies, asks or
/// allows.
pub fn gate(plan_mode: bool, plan_allowed: bool, policy: Policy, name: &str, arguments: &str) -> (r: Gate)
    ensures
        plan_mode && !plan_allowed ==> (r matches Gate::Refuse(e) && e.is_error && e.content@ == "plan mode: "@ + name@
            + " is read-only-restricted; finish planning first"@),
        !(plan_mode && !plan_allowed) ==> match policy {
            Policy::Deny => r matches Gate::Refuse(e) && e.is_error && e.content@ == "permission denied: "@ + name@,
            Policy::Ask => r matches Gate::Ask(t) && t@ == request_text(name@, arguments@),
            Policy::Allow => r is Run,
        },
{
    if plan_mode && !plan_allowed {
        let mut text = String::new();
        push_str(&mut text, "plan mode: ");
        push_str(&mut text, name);
        push_str(&mut text, " is read-only-restricted; finish planning first");
        return Gate::Refuse(ToolResult::err(text.as_str()));
    }
    match policy {
        Policy::Deny => {
            let mut text = String::new();
            push_str(&mut text, "permission denied: ");
            push_str(&mut text, name);
            Gate::Refuse(ToolResult::err(text.as_str()))
        },
        Policy::Ask => {
            let summary = summarize_args(name, arguments);
            let mut text = String::new();
            push_str(&mut text, name);
            push_str(&mut text, "(");
            push_str(&mut text, summary.as_str());
            push_str(&mut text, ")\n");
            push_str(&mut text, arguments);
            proof {
                assert(text@ =~= request_text(name@, arguments@));
            }
            Gate::Ask(text)
        },
        Policy::Allow => Gate::Run,
    }
}

/// The user's answer to an approval request; no answer counts as a refusal.
pub fn approval_refusal(answer: Option<bool>, name: &str) -> (r: Option<ToolResult>)
    ensures
        answer == Some(true) ==> r is None,
        answer != Some(true) ==> (r matches Some(e) && e.is_error && e.content@ == "user rejected: "@ + name@),
{
    match answer {
        Some(true) => None,
        _ => {
            let mut text = String::new();
            push_str(&mut text, "user rejected: ");
            push_str(&mut text, name);
            Some(ToolResult::err(text.as_str()))
        },
    }
}

} // verus!
