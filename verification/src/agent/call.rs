//! One tool call as a state machine: its arguments are checked, the extensions'
//! and the user's pre-tool hooks have their say, plan mode and the permission
//! policy decide, the user approves where asked, and only then does the tool
//! run. Every path ends with exactly one result for the call.
use vstd::prelude::*;
use crate::json::{JsonValue, json_parse, json_text};
use super::hooks::{HookOutcome, HookOutcomeV};
use super::permissions::Policy;
use super::tools::ToolResult;
use super::react::{check_arguments, is_object, after_extension, pre_hook_refusal, gate, Gate, approval_refusal, request_text};

verus! {

/// What the call waits for.
#[derive(Debug, Clone, Copy, PartialEq, Eq, Structural)]
pub enum CallPhase {
    /// The extensions' pre-tool hook answer.
    Extensions,
    /// The outcome of the user's pre-tool hooks.
    Hooks,
    /// Plan mode, whether the mode keeps the tool, and the policy for the call.
    Check,
    /// The user's answer to the approval request.
    Approval,
    /// The tool's result.
    Running,
    /// Nothing: the call has its result.
    Done,
}

/// What the caller hands back.
#[derive(Debug)]
pub enum CallEvent {
    /// The extensions' pre-tool hook: replacement arguments, or a refusal.
    Extensions { reply: Result<Option<JsonValue>, String> },
    /// The combined outcome of the user's pre-tool hooks.
    Hooks { outcome: HookOutcome },
    /// The mode and the policy for the call's current arguments.
    Checked { plan_mode: bool, plan_allowed: bool, policy: Policy },
    /// The user's answer; `None` when no answer came.
    Approval { answer: Option<bool> },
    /// What the tool produced.
    Ran { result: ToolResult },
}

/// What the caller does next.
#[derive(Debug)]
pub enum CallAction {
    /// Run the extensions' pre-tool hook on the arguments.
    Extensions,
    /// Run the user's pre-tool hooks on the arguments' text.
    Hooks,
    /// Look up plan mode and the policy for the arguments.
    Check,
    /// Ask the user, showing this text.
    AskApproval { text: String },
    /// Run the tool with the arguments.
    Run,
    /// The call's result; nothing more happens.
    Answer(ToolResult),
}

/// A call: the tool's name, its arguments as a document and as text, and the phase.
pub struct CallState {
    name: String,
    args: JsonValue,
    arguments: String,
    phase: CallPhase,
}

pub struct CallView {
    pub name: Seq<char>,
    pub args: JsonValue,
    pub arguments: Seq<char>,
    pub phase: CallPhase,
}

impl View for CallState {
    type V = CallView;

    closed spec fn view(&self) -> CallView {
        CallView { name: self.name@, args: self.args, arguments: self.arguments@, phase: self.phase }
    }
}

/// Whether the call waits for this event.
pub open spec fn call_expects(phase: CallPhase, e: CallEvent) -> bool {
    match e {
        CallEvent::Extensions { .. } => phase == CallPhase::Extensions,
        CallEvent::Hooks { .. } => phase == CallPhase::Hooks,
        CallEvent::Checked { .. } => phase == CallPhase::Check,
        CallEvent::Approval { .. } => phase == CallPhase::Approval,
        CallEvent::Ran { .. } => phase == CallPhase::Running,
    }
}

/// One step of the call.
pub open spec fn call_next(s: CallView, e: CallEvent, t: CallView, a: CallAction) -> bool {
    &&& t.name == s.name
    &&& match e {
        CallEvent::Extensions { reply } => match reply {
            Err(reason) => t.phase == CallPhase::Done
                && (a matches CallAction::Answer(r) && r.is_error && r.content@ == reason@),
            Ok(replacement) => {
                &&& t.phase == CallPhase::Hooks
                &&& a is Hooks
                &&& match replacement {
                    None => t.args == s.args && t.arguments == s.arguments,
                    Some(v) => t.args == v && t.arguments == json_text(v),
                }
            },
        },
        CallEvent::Hooks { outcome } => {
            &&& t.args == s.args
            &&& t.arguments == s.arguments
            &&& match outcome@ {
                HookOutcomeV::Passed => t.phase == CallPhase::Check && a is Check,
                HookOutcomeV::Blocked(reason) => t.phase == CallPhase::Done
                    && (a matches CallAction::Answer(r) && r.is_error && r.content@ == "blocked by hook: "@ + reason),
                HookOutcomeV::Failed(reason) => t.phase == CallPhase::Done
                    && (a matches CallAction::Answer(r) && r.is_error
                    && r.content@ == "pre-tool hook failed; execution blocked: "@ + reason),
            }
        },
        CallEvent::Checked { plan_mode, plan_allowed, policy } => {
            &&& t.args == s.args
            &&& t.arguments == s.arguments
            &&& if plan_mode && !plan_allowed {
                t.phase == CallPhase::Done && (a matches CallAction::Answer(r) && r.is_error
                    && r.content@ == "plan mode: "@ + s.name + " is read-only-restricted; finish planning first"@)
            } else {
                match policy {
                    Policy::Deny => t.phase == CallPhase::Done && (a matches CallAction::Answer(r) && r.is_error
                        && r.content@ == "permission denied: "@ + s.name),
                    Policy::Ask => t.phase == CallPhase::Approval
                        && (a matches CallAction::AskApproval { text } && text@ == request_text(s.name, s.arguments)),
                    Policy::Allow => t.phase == CallPhase::Running && a is Run,
                }
            }
        },
        CallEvent::Approval { answer } => {
            &&& t.args == s.args
            &&& t.arguments == s.arguments
            &&& if answer == Some(true) {
                t.phase == CallPhase::Running && a is Run
            } else {
                t.phase == CallPhase::Done && (a matches CallAction::Answer(r) && r.is_error
                    && r.content@ == "user rejected: "@ + s.name)
            }
        },
        CallEvent::Ran { result } => t.phase == CallPhase::Done && a == CallAction::Answer(result)
            && t.args == s.args && t.arguments == s.arguments,
    }
}

impl CallState {
    /// Starts a call. Arguments that are not a JSON object end it at once.
    pub fn start(name: String, arguments: String) -> (r: (Self, CallAction))
        ensures
            r.0@.name == name@,
            r.0@.arguments == arguments@,
            match json_parse(arguments@) {
                Ok(v) => if is_object(v) {
                    r.0@.args == v && r.0@.phase == CallPhase::Extensions && r.1 is Extensions
                } else {
                    r.0@.phase == CallPhase::Done && (r.1 matches CallAction::Answer(e) && e.is_error
                        && e.content@ == "invalid arguments: expected JSON object"@)
                },
                Err(_) => r.0@.phase == CallPhase::Done && (r.1 matches CallAction::Answer(e) && e.is_error
                    && e.content@ == "invalid arguments: expected JSON object"@),
            },
    {
        match check_arguments(arguments.as_str()) {
            Ok(args) => (CallState { name, args, arguments, phase: CallPhase::Extensions }, CallAction::Extensions),
            Err(e) => (CallState { name, args: JsonValue::Null, arguments, phase: CallPhase::Done }, CallAction::Answer(e)),
        }
    }

    /// The tool's name.
    pub fn name(&self) -> (r: &str)
        ensures
            r@ == self@.name,
    {
        self.name.as_str()
    }

    /// The arguments as they stand, as a document.
    pub fn args(&self) -> (r: &JsonValue)
        ensures
            *r == self@.args,
    {
        &self.args
    }

    /// The arguments as they stand, as text.
    pub fn arguments(&self) -> (r: &str)
        ensures
            r@ == self@.arguments,
    {
        self.arguments.as_str()
    }

    /// What the call waits for.
    pub fn phase(&self) -> (r: CallPhase)
        ensures
            r == self@.phase,
    {
        self.phase
    }

    /// Whether the call waits for this event.
    pub fn expects(&self, event: &CallEvent) -> (r: bool)
        ensures
            r == call_expects(self@.phase, *event),
    {
        match event {
            CallEvent::Extensions { .. } => self.phase == CallPhase::Extensions,
            CallEvent::Hooks { .. } => self.phase == CallPhase::Hooks,
            CallEvent::Checked { .. } => self.phase == CallPhase::Check,
            CallEvent::Approval { .. } => self.phase == CallPhase::Approval,
            CallEvent::Ran { .. } => self.phase == CallPhase::Running,
        }
    }

    /// Takes in what the caller did and decides what comes next.
    pub fn call_step(&mut self, event: CallEvent) -> (action: CallAction)
        requires
            call_expects(old(self)@.phase, event),
        ensures
            call_next(old(self)@, event, final(self)@, action),
    {
        match event {
            CallEvent::Extensions { reply } => {
                let mut args = JsonValue::Null;
                let mut arguments = String::new();
                std::mem::swap(&mut args, &mut self.args);
                std::mem::swap(&mut arguments, &mut self.arguments);
                match after_extension(args, arguments, reply) {
                    Ok((a, t)) => {
                        self.args = a;
                        self.arguments = t;
                        self.phase = CallPhase::Hooks;
                        CallAction::Hooks
                    },
                    Err(e) => {
                        self.phase = CallPhase::Done;
                        CallAction::Answer(e)
                    },
                }
            },
            CallEvent::Hooks { outcome } => match pre_hook_refusal(&outcome) {
                Some(e) => {
                    self.phase = CallPhase::Done;
                    CallAction::Answer(e)
                },
                None => {
                    self.phase = CallPhase::Check;
                    CallAction::Check
                },
            },
            CallEvent::Checked { plan_mode, plan_allowed, policy } => {
                match gate(plan_mode, plan_allowed, policy, self.name.as_str(), self.arguments.as_str()) {
                    Gate::Refuse(e) => {
                        self.phase = CallPhase::Done;
                        CallAction::Answer(e)
                    },
                    Gate::Ask(text) => {
                        self.phase = CallPhase::Approval;
                        CallAction::AskApproval { text }
                    },
                    Gate::Run => {
                        self.phase = CallPhase::Running;
                        CallAction::Run
                    },
                }
            },
            CallEvent::Approval { answer } => match approval_refusal(answer, self.name.as_str()) {
                Some(e) => {
                    self.phase = CallPhase::Done;
                    CallAction::Answer(e)
                },
                None => {
                    self.phase = CallPhase::Running;
                    CallAction::Run
                },
            },
            CallEvent::Ran { result } => {
                self.phase = CallPhase::Done;
                CallAction::Answer(result)
            },
        }
    }
}

/// A tool runs only with the user's say: its mode keeps it and the policy allows
/// it, or the policy asks and the user answers yes. Hooks that block or fail,
/// and refused approvals, never lead to a run.
pub proof fn law_tool_runs_only_when_allowed(s: CallView, e: CallEvent, t: CallView, a: CallAction)
    requires
        call_expects(s.phase, e),
        call_next(s, e, t, a),
        a is Run,
    ensures
        match e {
            CallEvent::Checked { plan_mode, plan_allowed, policy } => !(plan_mode && !plan_allowed) && policy == Policy::Allow,
            CallEvent::Approval { answer } => answer == Some(true) && s.phase == CallPhase::Approval,
            _ => false,
        },
{
}

/// Once the call has its result, nothing more happens to it: the result comes
/// with the step that ends the call, and every other step leaves it open.
pub proof fn law_one_result_per_call(s: CallView, e: CallEvent, t: CallView, a: CallAction)
    requires
        call_expects(s.phase, e),
        call_next(s, e, t, a),
    ensures
        (a is Answer) <==> t.phase == CallPhase::Done,
        s.phase != CallPhase::Done,
{
}

} // verus!
