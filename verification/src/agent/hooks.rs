//! What a finished user hook means for the action it guards.
use vstd::prelude::*;
use crate::text::{digits, push_decimal, push_str, trim, trimmed, chars_of, string_of};

verus! {

#[derive(Debug, Clone, PartialEq)]
pub enum HookOutcome {
    /// Exit code 0: the action may go ahead.
    Passed,
    /// Exit code 2: the hook vetoes the action; payload is the reason (stderr).
    Blocked(String),
    /// Non-zero exit or execution failure (payload is diagnostic text).
    Failed(String),
}

pub enum HookOutcomeV {
    Passed,
    Blocked(Seq<char>),
    Failed(Seq<char>),
}

impl View for HookOutcome {
    type V = HookOutcomeV;

    open spec fn view(&self) -> HookOutcomeV {
        match self {
            HookOutcome::Passed => HookOutcomeV::Passed,
            HookOutcome::Blocked(r) => HookOutcomeV::Blocked(r@),
            HookOutcome::Failed(r) => HookOutcomeV::Failed(r@),
        }
    }
}

/// A signed integer in decimal.
pub open spec fn signed_text(n: int) -> Seq<char> {
    if n < 0 {
        "-"@ + digits((-n) as nat)
    } else {
        digits(n as nat)
    }
}

/// The outcome of a hook that ran to its end: exit code 0 passes, 2 blocks with
/// the trimmed standard error as the reason, anything else (a missing code
/// counts as -1) fails with the code and that text.
pub open spec fn exit_outcome(code: Option<i32>, stderr: Seq<char>) -> HookOutcomeV {
    let c: int = match code {
        Some(c) => c as int,
        None => -1,
    };
    if c == 0 {
        HookOutcomeV::Passed
    } else if c == 2 {
        HookOutcomeV::Blocked(trim(stderr))
    } else {
        HookOutcomeV::Failed("exit "@ + signed_text(c) + ": "@ + trim(stderr))
    }
}

/// Reads a finished hook's exit code and standard error.
pub fn hook_outcome(code: Option<i32>, stderr: &str) -> (r: HookOutcome)
    ensures
        r@ == exit_outcome(code, stderr@),
{
    let c: i32 = match code {
        Some(c) => c,
        None => -1,
    };
    let reason = string_of(trimmed(chars_of(stderr).as_slice()).as_slice());
    if c == 0 {
        HookOutcome::Passed
    } else if c == 2 {
        HookOutcome::Blocked(reason)
    } else {
        let mut text = String::new();
        push_str(&mut text, "exit ");
        if c < 0 {
            push_str(&mut text, "-");
            let magnitude: i64 = -(c as i64);
            push_decimal(&mut text, magnitude as u64);
        } else {
            push_decimal(&mut text, c as u64);
        }
        push_str(&mut text, ": ");
        push_str(&mut text, reason.as_str());
        proof {
            let ci = c as int;
            if ci < 0 {
                assert(text@ =~= "exit "@ + ("-"@ + digits((-ci) as nat)) + ": "@ + trim(stderr@));
            } else {
                assert(text@ =~= "exit "@ + digits(ci as nat) + ": "@ + trim(stderr@));
            }
        }
        HookOutcome::Failed(text)
    }
}

impl HookOutcome {
    pub fn is_ok(&self) -> (r: bool)
        ensures
            r == (self@ is Passed),
    {
        match self {
            HookOutcome::Passed => true,
            _ => false,
        }
    }
}

} // verus!
