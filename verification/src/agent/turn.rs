//! The ReAct turn as a state machine: the model is asked, its tool calls are run
//! one by one, each answered by exactly one tool message, and the model is asked
//! again, within the context budget and the round budget. The caller performs
//! each action (building the system prompt, measuring and sending requests,
//! compacting, running a tool) and hands back what came of it.
use vstd::prelude::*;
use crate::llm::{Message, ToolCall, plain_message};
use super::react::{install_system, budget_step, budget_spec, BudgetStep, RoundBudget, after_reply, ReplyStep};

verus! {

/// What the turn waits for.
#[derive(Debug, Clone, Copy, PartialEq, Eq, Structural)]
pub enum Phase {
    /// The system prompt for the next request.
    Prepare,
    /// The size of the request built from the messages.
    Measure,
    /// The model's reply to the request.
    Reply,
    /// The history after a compaction.
    Compact,
    /// The result of the tool call at this position of the last reply.
    Tool { next: usize },
    /// Nothing: the turn has ended.
    Done,
}

/// What the caller hands back.
#[derive(Debug)]
pub enum TurnEvent {
    /// The system prompt built for the next request.
    System { system: String },
    /// The bytes of the request built from the messages, tool definitions and
    /// response reserve included.
    Measured { used: usize },
    /// The history a compaction left, when it changed anything.
    Compacted { history: Option<Vec<Message>> },
    /// The model's complete reply.
    Reply { message: Message },
    /// The text that the tool call asked for produced (its result, or its refusal).
    ToolDone { content: String },
}

/// Why a turn fails.
#[derive(Debug, Clone, Copy, PartialEq, Eq, Structural)]
pub enum TurnFailure {
    /// The request stays over the budget after two compactions.
    ContextBudget { used: usize, limit: usize },
    /// The model asked for tools with no round left; the configured maximum.
    RoundLimit(usize),
}

/// What the caller does next.
#[derive(Debug)]
pub enum TurnAction {
    /// Build the system prompt and hand it back as `System`.
    Prepare,
    /// Build the request from the messages, measure it and hand back `Measured`.
    Measure,
    /// Send the measured request and hand back the `Reply`.
    Request,
    /// Compact the history, keeping this many recent messages, and hand back `Compacted`.
    Compact { keep: usize },
    /// Run the tool call at this position of the last reply and hand back `ToolDone`.
    RunTool { index: usize },
    /// The turn's answer.
    Finish { text: String },
    /// The turn failed.
    Fail(TurnFailure),
}

/// The turn: the conversation so far, where the last reply with tool calls
/// stands, the budgets and the phase.
pub struct TurnState {
    messages: Vec<Message>,
    reply_at: usize,
    budget: RoundBudget,
    limit: usize,
    attempts: usize,
    phase: Phase,
}

pub struct TurnView {
    pub messages: Seq<Message>,
    pub reply_at: int,
    pub remaining: Option<usize>,
    pub max: Option<usize>,
    pub limit: usize,
    pub attempts: nat,
    pub phase: Phase,
    /// The round budget keeps its own invariant.
    pub budget_ok: bool,
}

impl View for TurnState {
    type V = TurnView;

    closed spec fn view(&self) -> TurnView {
        TurnView {
            messages: self.messages@,
            reply_at: self.reply_at as int,
            remaining: self.budget.remaining_spec(),
            max: self.budget.max_spec(),
            limit: self.limit,
            attempts: self.attempts as nat,
            phase: self.phase,
            budget_ok: self.budget.wf(),
        }
    }
}

/// The tool calls of a message: none when it has none.
pub open spec fn calls_of(m: Message) -> Seq<ToolCall> {
    match m.tool_calls {
        Some(v) => v@,
        None => Seq::empty(),
    }
}

/// The tool calls of the reply being run.
pub open spec fn pending_calls(s: TurnView) -> Seq<ToolCall> {
    calls_of(s.messages[s.reply_at])
}

/// A tool message that answers a call: its role is `tool` and it names the call.
pub open spec fn answers(m: Message, c: ToolCall) -> bool {
    &&& m.role@ == "tool"@
    &&& m.tool_call_id matches Some(id) && id@ == c.id@
}

/// While tools run, the messages end with the reply and one answer for each call
/// already run, in the order of the calls.
pub open spec fn answered(s: TurnView, n: int) -> bool {
    &&& 0 <= s.reply_at < s.messages.len()
    &&& s.messages.len() == s.reply_at + 1 + n
    &&& n <= pending_calls(s).len()
    &&& forall|i: int| 0 <= i < n ==> answers(#[trigger] s.messages[s.reply_at + 1 + i], pending_calls(s)[i])
}

/// The state's invariant.
pub open spec fn turn_wf(s: TurnView) -> bool {
    &&& s.attempts <= 2
    &&& s.budget_ok
    &&& s.phase == Phase::Compact ==> s.attempts < 2
    &&& s.phase matches Phase::Tool { next } ==> answered(s, next as int) && next < pending_calls(s).len()
}

/// Whether the turn waits for this event.
pub open spec fn expects(phase: Phase, e: TurnEvent) -> bool {
    match e {
        TurnEvent::System { .. } => phase == Phase::Prepare,
        TurnEvent::Measured { .. } => phase == Phase::Measure,
        TurnEvent::Compacted { .. } => phase == Phase::Compact,
        TurnEvent::Reply { .. } => phase == Phase::Reply,
        TurnEvent::ToolDone { .. } => phase is Tool,
    }
}

/// Everything but the messages and the phase stays.
pub open spec fn same_budgets(s: TurnView, t: TurnView) -> bool {
    &&& t.remaining == s.remaining
    &&& t.max == s.max
    &&& t.limit == s.limit
}

/// One step of the turn: how the state and the action follow from the state and
/// the event.
pub open spec fn turn_next(s: TurnView, e: TurnEvent, t: TurnView, a: TurnAction) -> bool {
    match e {
        TurnEvent::System { system } => {
            &&& same_budgets(s, t)
            &&& t.attempts == s.attempts
            &&& t.reply_at == s.reply_at
            &&& t.phase == Phase::Measure
            &&& a is Measure
            &&& t.messages.len() > 0
            &&& plain_message(t.messages[0], "system"@, system@)
            &&& if s.messages.len() > 0 && s.messages[0].role@ == "system"@ {
                &&& t.messages.len() == s.messages.len()
                &&& forall|i: int| 1 <= i < s.messages.len() ==> t.messages[i] == s.messages[i]
            } else {
                &&& t.messages.len() == s.messages.len() + 1
                &&& forall|i: int| 0 <= i < s.messages.len() ==> t.messages[i + 1] == s.messages[i]
            }
        },
        TurnEvent::Measured { used } => {
            &&& same_budgets(s, t)
            &&& t.messages == s.messages
            &&& t.reply_at == s.reply_at
            &&& match budget_spec(used as nat, s.limit as nat, s.attempts) {
                BudgetStep::Send => t.attempts == 0 && t.phase == Phase::Reply && a is Request,
                BudgetStep::Compact { keep } => t.attempts == s.attempts && t.phase == Phase::Compact
                    && a == TurnAction::Compact { keep },
                BudgetStep::Exceeded => t.attempts == s.attempts && t.phase == Phase::Done
                    && a == TurnAction::Fail(TurnFailure::ContextBudget { used, limit: s.limit }),
            }
        },
        TurnEvent::Compacted { history } => {
            &&& same_budgets(s, t)
            &&& t.messages == match history { Some(h) => h@, None => s.messages }
            &&& t.attempts == s.attempts + 1
            &&& t.reply_at == s.reply_at
            &&& t.phase == Phase::Prepare
            &&& a is Prepare
        },
        TurnEvent::Reply { message } => {
            &&& t.limit == s.limit
            &&& t.max == s.max
            &&& t.attempts == s.attempts
            &&& t.messages == s.messages.push(message)
            &&& if calls_of(message).len() == 0 {
                &&& t.remaining == s.remaining
                &&& t.reply_at == s.reply_at
                &&& t.phase == Phase::Done
                &&& a matches TurnAction::Finish { text } && text@ == crate::llm::content_text(message.content)
            } else if s.remaining == Some(0usize) {
                &&& t.remaining == s.remaining
                &&& t.reply_at == s.reply_at
                &&& t.phase == Phase::Done
                &&& a == TurnAction::Fail(TurnFailure::RoundLimit(s.max.unwrap()))
            } else {
                &&& t.remaining == match s.remaining { Some(n) => Some((n - 1) as usize), None => None }
                &&& t.reply_at == s.messages.len()
                &&& t.phase == Phase::Tool { next: 0 }
                &&& a == TurnAction::RunTool { index: 0 }
            }
        },
        TurnEvent::ToolDone { content } => {
            let next = s.phase->next;
            let call = pending_calls(s)[next as int];
            &&& same_budgets(s, t)
            &&& t.attempts == s.attempts
            &&& t.reply_at == s.reply_at
            &&& t.messages.len() == s.messages.len() + 1
            &&& t.messages.drop_last() == s.messages
            &&& plain_message(t.messages.last(), "tool"@, content@)
            &&& answers(t.messages.last(), call)
            &&& if next + 1 < pending_calls(s).len() {
                t.phase == Phase::Tool { next: (next + 1) as usize } && a == TurnAction::RunTool { index: (next + 1) as usize }
            } else {
                t.phase == Phase::Prepare && a is Prepare
            }
        },
    }
}

fn clone_call(c: &ToolCall) -> (r: ToolCall)
    ensures
        r == *c,
{
    ToolCall {
        id: c.id.clone(),
        kind: c.kind.clone(),
        function: crate::llm::FunctionCall { name: c.function.name.clone(), arguments: c.function.arguments.clone() },
    }
}

impl TurnState {
    pub open spec fn wf(&self) -> bool {
        turn_wf(self@)
    }

    /// A turn over the history and the new user message, with `max_rounds` tool
    /// rounds (`None` for no limit) and a request budget of `limit` bytes. Its
    /// first action is `Prepare`.
    pub fn new(messages: Vec<Message>, max_rounds: Option<usize>, limit: usize) -> (r: Self)
        ensures
            r.wf(),
            r@.messages == messages@,
            r@.remaining == max_rounds,
            r@.max == max_rounds,
            r@.limit == limit,
            r@.attempts == 0,
            r@.phase == Phase::Prepare,
    {
        TurnState { messages, reply_at: 0, budget: RoundBudget::new(max_rounds), limit, attempts: 0, phase: Phase::Prepare }
    }

    /// The messages so far.
    pub fn messages(&self) -> (r: &Vec<Message>)
        ensures
            r@ == self@.messages,
    {
        &self.messages
    }

    /// The messages, when the turn is over.
    pub fn into_messages(self) -> (r: Vec<Message>)
        ensures
            r@ == self@.messages,
    {
        self.messages
    }

    /// What the turn waits for.
    pub fn phase(&self) -> (r: Phase)
        ensures
            r == self@.phase,
    {
        self.phase
    }

    /// Whether the turn waits for this event.
    pub fn expects(&self, event: &TurnEvent) -> (r: bool)
        ensures
            r == expects(self@.phase, *event),
    {
        match event {
            TurnEvent::System { .. } => self.phase == Phase::Prepare,
            TurnEvent::Measured { .. } => self.phase == Phase::Measure,
            TurnEvent::Compacted { .. } => self.phase == Phase::Compact,
            TurnEvent::Reply { .. } => self.phase == Phase::Reply,
            TurnEvent::ToolDone { .. } => match self.phase {
                Phase::Tool { .. } => true,
                _ => false,
            },
        }
    }

    /// The tool call at a position of the reply being run.
    pub fn call(&self, index: usize) -> (r: &ToolCall)
        requires
            self.wf(),
            self@.phase matches Phase::Tool { next } && index == next,
        ensures
            *r == pending_calls(self@)[index as int],
    {
        match &self.messages[self.reply_at].tool_calls {
            Some(calls) => &calls[index],
            None => {
                proof {
                    assert(false);
                }
                &self.messages[self.reply_at].tool_calls.as_ref().unwrap()[index]
            },
        }
    }

    /// Takes in what the caller did and decides what comes next.
    pub fn turn_step(&mut self, event: TurnEvent) -> (action: TurnAction)
        requires
            old(self).wf(),
            expects(old(self)@.phase, event),
        ensures
            final(self).wf(),
            turn_next(old(self)@, event, final(self)@, action),
    {
        let ghost e = event;
        match event {
            TurnEvent::System { system } => {
                install_system(&mut self.messages, system.as_str());
                self.phase = Phase::Measure;
                TurnAction::Measure
            },
            TurnEvent::Measured { used } => {
                match budget_step(used, self.limit, self.attempts) {
                    BudgetStep::Send => {
                        self.attempts = 0;
                        self.phase = Phase::Reply;
                        TurnAction::Request
                    },
                    BudgetStep::Compact { keep } => {
                        self.phase = Phase::Compact;
                        TurnAction::Compact { keep }
                    },
                    BudgetStep::Exceeded => {
                        self.phase = Phase::Done;
                        TurnAction::Fail(TurnFailure::ContextBudget { used, limit: self.limit })
                    },
                }
            },
            TurnEvent::Compacted { history } => {
                if let Some(h) = history {
                    self.messages = h;
                }
                self.attempts = self.attempts + 1;
                self.phase = Phase::Prepare;
                TurnAction::Prepare
            },
            TurnEvent::Reply { message } => {
                let n = match &message.tool_calls {
                    Some(c) => c.len(),
                    None => 0,
                };
                let text = match &message.content {
                    Some(c) => c.clone(),
                    None => String::new(),
                };
                let at = self.messages.len();
                self.messages.push(message);
                match after_reply(n, &mut self.budget) {
                    ReplyStep::Finish => {
                        self.phase = Phase::Done;
                        TurnAction::Finish { text }
                    },
                    ReplyStep::RoundLimit(m) => {
                        self.phase = Phase::Done;
                        TurnAction::Fail(TurnFailure::RoundLimit(m))
                    },
                    ReplyStep::RunTools => {
                        self.reply_at = at;
                        self.phase = Phase::Tool { next: 0 };
                        proof {
                            assert(self.messages@[at as int] == message);
                        }
                        TurnAction::RunTool { index: 0 }
                    },
                }
            },
            TurnEvent::ToolDone { content } => {
                let next = match self.phase {
                    Phase::Tool { next } => next,
                    _ => 0,
                };
                let ghost before = self@;
                let call = clone_call(self.call(next));
                let total = match &self.messages[self.reply_at].tool_calls {
                    Some(c) => c.len(),
                    None => 0,
                };
                self.messages.push(Message::tool(call.id.as_str(), content.as_str()));
                proof {
                    let t = self@;
                    assert(t.messages.drop_last() =~= before.messages);
                    assert forall|i: int| 0 <= i < next + 1 implies answers(#[trigger] t.messages[t.reply_at + 1 + i], pending_calls(t)[i]) by {
                        if i < next {
                            assert(t.messages[t.reply_at + 1 + i] == before.messages[before.reply_at + 1 + i]);
                        }
                    }
                }
                if next + 1 < total {
                    self.phase = Phase::Tool { next: next + 1 };
                    TurnAction::RunTool { index: next + 1 }
                } else {
                    self.phase = Phase::Prepare;
                    TurnAction::Prepare
                }
            },
        }
    }
}

/// Every tool call of a reply gets exactly one tool message, in the order of the
/// calls, before the turn asks for the next request: when the last result comes
/// in, the messages after the reply are exactly one answer per call.
pub proof fn law_each_call_answered_before_next_request(s: TurnView, e: TurnEvent, t: TurnView, a: TurnAction)
    requires
        turn_wf(s),
        expects(s.phase, e),
        turn_next(s, e, t, a),
        s.phase is Tool,
        a is Prepare,
    ensures
        t.messages.len() == s.reply_at + 1 + pending_calls(s).len(),
        forall|i: int| 0 <= i < pending_calls(s).len() ==> answers(#[trigger] t.messages[s.reply_at + 1 + i], pending_calls(s)[i]),
        t.messages.drop_last() == s.messages,
{
    let next = s.phase->next;
    assert(next + 1 == pending_calls(s).len());
    assert forall|i: int| 0 <= i < pending_calls(s).len() implies answers(#[trigger] t.messages[s.reply_at + 1 + i], pending_calls(s)[i]) by {
        if i < next {
            assert(t.messages[s.reply_at + 1 + i] == s.messages[s.reply_at + 1 + i]);
        }
    }
}

/// No tool runs once the round budget is spent: a reply that asks for tools with
/// no round left ends the turn with the round limit, and each round that runs
/// tools takes one round from the budget.
pub proof fn law_no_tool_after_budget(s: TurnView, message: Message, t: TurnView, a: TurnAction)
    requires
        turn_wf(s),
        s.phase == Phase::Reply,
        turn_next(s, TurnEvent::Reply { message }, t, a),
        calls_of(message).len() > 0,
    ensures
        s.remaining == Some(0usize) ==> !(a is RunTool) && a == TurnAction::Fail(TurnFailure::RoundLimit(s.max.unwrap())),
        a is RunTool ==> s.remaining != Some(0usize) && match s.remaining {
            Some(n) => t.remaining == Some((n - 1) as usize),
            None => t.remaining is None,
        },
{
}

/// A request is asked for only when the measured request fits the budget.
pub proof fn law_request_only_within_budget(s: TurnView, used: usize, t: TurnView, a: TurnAction)
    requires
        turn_next(s, TurnEvent::Measured { used }, t, a),
        a is Request,
    ensures
        used <= s.limit,
{
}

} // verus!
