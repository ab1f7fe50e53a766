use vstd::prelude::*;
use crate::config::{PermissionMode, PermissionsConfig};
use crate::config::clone_strings;
use crate::text::strings_view;

verus! {

#[derive(Debug, Clone, Copy, PartialEq, Eq, Structural)]
pub enum Policy {
    Allow,
    Ask,
    Deny,
}

/// The decision for a tool: Never Ask allows everything; otherwise a denied tool
/// is denied; Normal asks for everything else; the other modes allow trusted and
/// automatically allowed tools and ask for the rest.
pub open spec fn decide(mode: PermissionMode, denied: bool, allowed: bool, automatic: bool) -> Policy {
    if mode == PermissionMode::NeverAsk {
        Policy::Allow
    } else if denied {
        Policy::Deny
    } else if mode == PermissionMode::Normal {
        Policy::Ask
    } else if allowed || automatic {
        Policy::Allow
    } else {
        Policy::Ask
    }
}

#[derive(Debug)]
pub struct Permissions {
    mode: PermissionMode,
    allow: Vec<String>,
    deny: Vec<String>,
}

pub struct PermissionsView {
    pub mode: PermissionMode,
    pub allow: Seq<Seq<char>>,
    pub deny: Seq<Seq<char>>,
}

impl View for Permissions {
    type V = PermissionsView;

    closed spec fn view(&self) -> PermissionsView {
        PermissionsView { mode: self.mode, allow: strings_view(self.allow@), deny: strings_view(self.deny@) }
    }
}

fn listed(list: &Vec<String>, tool: &str) -> (r: bool)
    ensures
        r == strings_view(list@).contains(tool@),
{
    let t = tool.to_owned();
    let mut i: usize = 0;
    while i < list.len()
        invariant
            i <= list@.len(),
            t@ == tool@,
            forall|j: int| 0 <= j < i ==> strings_view(list@)[j] != tool@,
        decreases list@.len() - i,
    {
        if list[i] == t {
            proof {
                assert(strings_view(list@)[i as int] == tool@);
            }
            return true;
        }
        i = i + 1;
    }
    proof {
        if strings_view(list@).contains(tool@) {
            let j = choose|j: int| 0 <= j < strings_view(list@).len() && strings_view(list@)[j] == tool@;
            assert(strings_view(list@)[j] == tool@);
        }
    }
    false
}

impl Permissions {
    pub fn new(cfg: &PermissionsConfig) -> (r: Self)
        ensures
            r@.mode == cfg.mode,
            r@.allow == strings_view(cfg.allow@),
            r@.deny == strings_view(cfg.deny@),
    {
        Permissions { mode: cfg.mode, allow: clone_strings(&cfg.allow), deny: clone_strings(&cfg.deny) }
    }

    pub fn mode(&self) -> (r: PermissionMode)
        ensures
            r == self@.mode,
    {
        self.mode
    }

    pub fn set_mode(&mut self, mode: PermissionMode)
        ensures
            final(self)@ == (PermissionsView { mode, ..old(self)@ }),
    {
        self.mode = mode;
    }

    /// Called after argument-rewriting hooks. Unknown tools require approval.
    pub fn check(&self, tool: &str, automatically_allowed: bool) -> (r: Policy)
        ensures
            r == decide(self@.mode, self@.deny.contains(tool@), self@.allow.contains(tool@), automatically_allowed),
    {
        let mode = self.mode;
        if mode == PermissionMode::NeverAsk {
            return Policy::Allow;
        }
        if listed(&self.deny, tool) {
            return Policy::Deny;
        }
        if mode == PermissionMode::Normal {
            return Policy::Ask;
        }
        if listed(&self.allow, tool) || automatically_allowed {
            Policy::Allow
        } else {
            Policy::Ask
        }
    }
}

} // verus!
