use vstd::prelude::*;
use crate::text::{is_ascii_alnum, is_ascii_alphanumeric, is_ws, chars_of, chars_eq, lead_ws};
use crate::json::{JsonValue, get_str, str_eq, str_member};
use crate::config::PermissionMode;
use crate::agent::permissions::{Permissions, Policy, decide};

verus! {

pub open spec fn shell_safe_char(c: char) -> bool {
    is_ascii_alnum(c) || c == ' ' || c == '/' || c == '.' || c == '_' || c == '-'
}

/// The first white-space separated word, if any.
pub open spec fn first_word(s: Seq<char>) -> Option<Seq<char>> {
    let t = s.skip(lead_ws(s) as int);
    if t.len() == 0 {
        None
    } else {
        Some(t.take(word_len(t) as int))
    }
}

/// Number of leading characters that are not white space.
pub open spec fn word_len(s: Seq<char>) -> nat
    decreases s.len(),
{
    if s.len() == 0 || is_ws(s[0]) {
        0
    } else {
        1 + word_len(s.drop_first())
    }
}

pub open spec fn read_only_command(word: Seq<char>) -> bool {
    word == "pwd"@ || word == "ls"@ || word == "cat"@ || word == "head"@ || word == "tail"@ || word == "wc"@
}

/// Deliberately narrow: no shell operators, expansion, quoting, scripts or
/// extensible commands. Anything outside this subset goes through approval.
pub open spec fn read_only_shell_spec(command: Seq<char>) -> bool {
    (forall|i: int| 0 <= i < command.len() ==> shell_safe_char(#[trigger] command[i]))
        && (first_word(command) matches Some(w) && read_only_command(w))
}

proof fn lemma_word_len(s: Seq<char>, k: int)
    requires
        0 <= k <= s.len(),
        forall|j: int| 0 <= j < k ==> !is_ws(#[trigger] s[j]),
        k < s.len() ==> is_ws(s[k]),
    ensures
        word_len(s) == k,
    decreases s.len(),
{
    if k > 0 {
        assert forall|j: int| 0 <= j < k - 1 implies !is_ws(#[trigger] s.drop_first()[j]) by {
            assert(s.drop_first()[j] == s[j + 1]);
        }
        if k < s.len() {
            assert(s.drop_first()[k - 1] == s[k]);
        }
        lemma_word_len(s.drop_first(), k - 1);
    }
}

pub fn read_only_shell(command: &str) -> (r: bool)
    ensures
        r == read_only_shell_spec(command@),
{
    let cs = chars_of(command);
    let mut i: usize = 0;
    while i < cs.len()
        invariant
            i <= cs@.len(),
            cs@ == command@,
            forall|j: int| 0 <= j < i ==> shell_safe_char(#[trigger] cs@[j]),
        decreases cs@.len() - i,
    {
        let c = cs[i];
        if !(is_ascii_alphanumeric(c) || c == ' ' || c == '/' || c == '.' || c == '_' || c == '-') {
            return false;
        }
        i = i + 1;
    }
    let (start, _) = crate::text::trim_bounds(cs.as_slice());
    if start == cs.len() {
        return false;
    }
    let mut end = start;
    while end < cs.len() && !crate::text::is_whitespace(cs[end])
        invariant
            start <= end <= cs@.len(),
            forall|j: int| start <= j < end ==> !is_ws(#[trigger] cs@[j]),
        decreases cs@.len() - end,
    {
        end = end + 1;
    }
    let word = crate::text::copy_chars(cs.as_slice(), start, end);
    proof {
        let t = cs@.skip(start as int);
        assert forall|j: int| 0 <= j < end - start implies !is_ws(#[trigger] t[j]) by {
            assert(t[j] == cs@[j + start]);
        }
        if end < cs@.len() {
            assert(t[end - start] == cs@[end as int]);
        }
        lemma_word_len(t, end - start);
        assert(word@ =~= t.take(end - start));
    }
    is_one_of(&word)
}

fn is_one_of(word: &Vec<char>) -> (r: bool)
    ensures
        r == read_only_command(word@),
{
    chars_eq(word.as_slice(), chars_of("pwd").as_slice()) || chars_eq(word.as_slice(), chars_of("ls").as_slice())
        || chars_eq(word.as_slice(), chars_of("cat").as_slice()) || chars_eq(word.as_slice(), chars_of("head").as_slice())
        || chars_eq(word.as_slice(), chars_of("tail").as_slice()) || chars_eq(word.as_slice(), chars_of("wc").as_slice())
}


// ---------------------------------------------------------------------------
// Capabilities.

/// How a tool call is approved.
#[derive(Debug, Clone, Copy, PartialEq, Eq, Structural)]
pub enum Approval {
    /// Never needs approval.
    Always,
    /// Automatic for read-only shell commands.
    Shell,
    /// Automatic for edits inside the workspace in auto-edit mode.
    WorkspaceEdit,
    /// Always asks, unless the tool is allowed by name.
    Ask,
}

/// A tool of the catalog: whether plan mode keeps it and how its calls are
/// approved.
#[derive(Debug)]
pub struct Capability {
    pub name: String,
    pub plan_allowed: bool,
    pub approval: Approval,
}

pub struct CapabilityV {
    pub name: Seq<char>,
    pub plan_allowed: bool,
    pub approval: Approval,
}

pub open spec fn cap_v(c: Capability) -> CapabilityV {
    CapabilityV { name: c.name@, plan_allowed: c.plan_allowed, approval: c.approval }
}

pub open spec fn caps_view(v: Seq<Capability>) -> Seq<CapabilityV> {
    v.map_values(|c: Capability| cap_v(c))
}

/// The built-in tools in catalog order. Only `task`, the last, is kept from
/// subagents.
pub open spec fn builtins() -> Seq<CapabilityV> {
    seq![
        CapabilityV { name: "background_tasks"@, plan_allowed: true, approval: Approval::Always },
        CapabilityV { name: "read"@, plan_allowed: true, approval: Approval::Always },
        CapabilityV { name: "bash"@, plan_allowed: false, approval: Approval::Shell },
        CapabilityV { name: "edit"@, plan_allowed: false, approval: Approval::WorkspaceEdit },
        CapabilityV { name: "write"@, plan_allowed: false, approval: Approval::WorkspaceEdit },
        CapabilityV { name: "recall"@, plan_allowed: true, approval: Approval::Always },
        CapabilityV { name: "remember"@, plan_allowed: false, approval: Approval::Always },
        CapabilityV { name: "todo_write"@, plan_allowed: true, approval: Approval::Always },
        CapabilityV { name: "skill"@, plan_allowed: true, approval: Approval::Always },
        CapabilityV { name: "task"@, plan_allowed: true, approval: Approval::Always },
    ]
}

/// An extension tool: read-only tools stay in plan mode and need no approval;
/// the others are left out of plan mode and ask.
pub open spec fn extension_cap(name: Seq<char>, read_only: bool) -> CapabilityV {
    CapabilityV {
        name,
        plan_allowed: read_only,
        approval: if read_only { Approval::Always } else { Approval::Ask },
    }
}

pub open spec fn extension_caps(tools: Seq<(String, bool)>) -> Seq<CapabilityV> {
    tools.map_values(|t: (String, bool)| extension_cap(t.0@, t.1))
}

/// The catalog at a depth: the built-ins (without `task` below the root), then
/// the extension tools.
pub open spec fn catalog_of(depth: nat, tools: Seq<(String, bool)>) -> Seq<CapabilityV> {
    (if depth == 0 { builtins() } else { builtins().take(9) }) + extension_caps(tools)
}

/// The first capability of the given name.
pub open spec fn find_cap(caps: Seq<CapabilityV>, name: Seq<char>) -> Option<CapabilityV>
    decreases caps.len(),
{
    if caps.len() == 0 {
        None
    } else if caps[0].name == name {
        Some(caps[0])
    } else {
        find_cap(caps.drop_first(), name)
    }
}

/// Whether the memory controls keep a tool: `remember` needs writing, `recall`
/// reading.
pub open spec fn memory_keeps(name: Seq<char>, read: bool, write: bool) -> bool {
    if name == "remember"@ {
        write
    } else if name == "recall"@ {
        read
    } else {
        true
    }
}

pub open spec fn with_memory(caps: Seq<CapabilityV>, read: bool, write: bool) -> Seq<CapabilityV>
    decreases caps.len(),
{
    if caps.len() == 0 {
        caps
    } else {
        let rest = with_memory(caps.drop_last(), read, write);
        if memory_keeps(caps.last().name, read, write) { rest.push(caps.last()) } else { rest }
    }
}

/// Whether a call needs no approval: by the tool's kind, its arguments and,
/// for workspace edits, whether the `path` argument lies in the workspace.
pub open spec fn automatic(cap: Option<CapabilityV>, mode: PermissionMode, args: JsonValue, in_workspace: bool) -> bool {
    match cap {
        None => false,
        Some(c) => match c.approval {
            Approval::Always => true,
            Approval::Ask => false,
            Approval::WorkspaceEdit => mode == PermissionMode::AutoEdit && get_str(args, "path"@) is Some && in_workspace,
            Approval::Shell => match get_str(args, "command"@) {
                Some(command) => read_only_shell_spec(command),
                None => false,
            },
        },
    }
}

/// The names of the tools offered to the model, in catalog order: in plan
/// mode only those that plan mode keeps.
pub open spec fn offered(caps: Seq<CapabilityV>, plan_mode: bool) -> Seq<Seq<char>>
    decreases caps.len(),
{
    if caps.len() == 0 {
        Seq::empty()
    } else {
        let rest = offered(caps.drop_last(), plan_mode);
        if !plan_mode || caps.last().plan_allowed { rest.push(caps.last().name) } else { rest }
    }
}

/// The tools of a session, with what they may do.
pub struct Capabilities {
    pub entries: Vec<Capability>,
}

fn cap(name: &str, plan_allowed: bool, approval: Approval) -> (r: Capability)
    ensures
        cap_v(r) == (CapabilityV { name: name@, plan_allowed, approval }),
{
    Capability { name: name.to_owned(), plan_allowed, approval }
}

impl Capabilities {
    /// The catalog of an agent at `depth`, with the extension tools given by
    /// name and whether they are read-only.
    pub fn build(depth: usize, extension_tools: &Vec<(String, bool)>) -> (r: Self)
        ensures
            caps_view(r.entries@) == catalog_of(depth as nat, extension_tools@),
    {
        let mut entries: Vec<Capability> = Vec::new();
        entries.push(cap("background_tasks", true, Approval::Always));
        entries.push(cap("read", true, Approval::Always));
        entries.push(cap("bash", false, Approval::Shell));
        entries.push(cap("edit", false, Approval::WorkspaceEdit));
        entries.push(cap("write", false, Approval::WorkspaceEdit));
        entries.push(cap("recall", true, Approval::Always));
        entries.push(cap("remember", false, Approval::Always));
        entries.push(cap("todo_write", true, Approval::Always));
        entries.push(cap("skill", true, Approval::Always));
        if depth == 0 {
            entries.push(cap("task", true, Approval::Always));
        }
        let ghost base = caps_view(entries@);
        proof {
            assert(base =~= if depth == 0 { builtins() } else { builtins().take(9) });
        }
        let mut i: usize = 0;
        while i < extension_tools.len()
            invariant
                i <= extension_tools@.len(),
                caps_view(entries@) == base + extension_caps(extension_tools@.take(i as int)),
            decreases extension_tools@.len() - i,
        {
            let (name, read_only) = &extension_tools[i];
            let c = Capability {
                name: name.clone(),
                plan_allowed: *read_only,
                approval: if *read_only { Approval::Always } else { Approval::Ask },
            };
            let ghost prev = caps_view(entries@);
            entries.push(c);
            proof {
                assert(extension_tools@.take(i + 1) =~= extension_tools@.take(i as int).push(extension_tools@[i as int]));
                assert(caps_view(entries@) =~= prev.push(extension_cap(extension_tools@[i as int].0@, extension_tools@[i as int].1)));
                assert(extension_caps(extension_tools@.take(i + 1)) =~= extension_caps(extension_tools@.take(i as int)).push(
                    extension_cap(extension_tools@[i as int].0@, extension_tools@[i as int].1),
                ));
            }
            i = i + 1;
        }
        proof {
            assert(extension_tools@.take(extension_tools@.len() as int) =~= extension_tools@);
        }
        Capabilities { entries }
    }

    /// Drops `remember` when memory writing is off and `recall` when reading is.
    pub fn with_memory_controls(self, read_enabled: bool, write_enabled: bool) -> (r: Self)
        ensures
            caps_view(r.entries@) == with_memory(caps_view(self.entries@), read_enabled, write_enabled),
    {
        let ghost all = caps_view(self.entries@);
        let mut kept: Vec<Capability> = Vec::new();
        let mut rest = self.entries;
        let ghost orig = rest@;
        let ghost n = all.len();
        proof {
            assert(all.take(0) =~= Seq::<CapabilityV>::empty());
            assert(caps_view(kept@) =~= with_memory(all.take(0), read_enabled, write_enabled));
            assert(orig.skip(0) =~= orig);
        }
        while rest.len() > 0
            invariant
                rest@.len() <= n,
                n == all.len(),
                all == caps_view(orig),
                rest@ == orig.skip(n - rest@.len()),
                caps_view(kept@) == with_memory(all.take(n - rest@.len()), read_enabled, write_enabled),
            decreases rest@.len(),
        {
            let ghost k = (n - rest@.len()) as int;
            let c = rest.remove(0);
            proof {
                assert(orig.skip(k).remove(0) =~= orig.skip(k + 1));
                assert(cap_v(c) == all[k]);
                assert(all.take(k + 1).drop_last() =~= all.take(k));
                assert(all.take(k + 1).last() == all[k]);
            }
            let keep = if str_eq(c.name.as_str(), "remember") {
                write_enabled
            } else if str_eq(c.name.as_str(), "recall") {
                read_enabled
            } else {
                true
            };
            if keep {
                let ghost prev = caps_view(kept@);
                let ghost cv = cap_v(c);
                kept.push(c);
                proof {
                    assert(caps_view(kept@) =~= prev.push(cv));
                }
            }
        }
        proof {
            assert(all.take(n as int) =~= all);
        }
        Capabilities { entries: kept }
    }

    fn find(&self, name: &str) -> (r: Option<&Capability>)
        ensures
            match r {
                Some(c) => find_cap(caps_view(self.entries@), name@) == Some(cap_v(*c)),
                None => find_cap(caps_view(self.entries@), name@) is None,
            },
    {
        let ghost all = caps_view(self.entries@);
        let mut i: usize = 0;
        proof {
            assert(all.skip(0) =~= all);
        }
        while i < self.entries.len()
            invariant
                i <= self.entries@.len(),
                all == caps_view(self.entries@),
                find_cap(all, name@) == find_cap(all.skip(i as int), name@),
            decreases self.entries@.len() - i,
        {
            proof {
                assert(all.skip(i as int).drop_first() =~= all.skip(i + 1));
                assert(all.skip(i as int)[0] == cap_v(self.entries@[i as int]));
            }
            if str_eq(self.entries[i].name.as_str(), name) {
                return Some(&self.entries[i]);
            }
            i = i + 1;
        }
        None
    }

    /// Whether plan mode keeps the tool; unknown tools are not kept.
    pub fn plan_allowed(&self, name: &str) -> (r: bool)
        ensures
            r == (find_cap(caps_view(self.entries@), name@) matches Some(c) && c.plan_allowed),
    {
        match self.find(name) {
            Some(c) => c.plan_allowed,
            None => false,
        }
    }

    /// The names of the tools offered in plan mode or outside it, in order.
    pub fn names_for_mode(&self, plan_mode: bool) -> (r: Vec<String>)
        ensures
            r@.map_values(|s: String| s@) == offered(caps_view(self.entries@), plan_mode),
    {
        let ghost all = caps_view(self.entries@);
        let mut out: Vec<String> = Vec::new();
        let mut i: usize = 0;
        proof {
            assert(all.take(0) =~= Seq::<CapabilityV>::empty());
            assert(out@.map_values(|s: String| s@) =~= offered(all.take(0), plan_mode));
        }
        while i < self.entries.len()
            invariant
                i <= self.entries@.len(),
                all == caps_view(self.entries@),
                out@.map_values(|s: String| s@) == offered(all.take(i as int), plan_mode),
            decreases self.entries@.len() - i,
        {
            let ghost t = all.take(i as int);
            proof {
                assert(all.take(i + 1).drop_last() =~= t);
                assert(all[i as int] == cap_v(self.entries@[i as int]));
            }
            if !plan_mode || self.entries[i].plan_allowed {
                let ghost prev = out@;
                out.push(self.entries[i].name.clone());
                proof {
                    assert(out@.map_values(|s: String| s@) =~= prev.map_values(|s: String| s@).push(all[i as int].name));
                }
            }
            i = i + 1;
        }
        proof {
            assert(all.take(self.entries@.len() as int) =~= all);
        }
        out
    }

    /// The approval policy for a call, after argument-rewriting hooks.
    /// `in_workspace` says whether the call's `path` argument resolves inside
    /// the workspace; it only matters for workspace edits in auto-edit mode.
    pub fn policy(&self, permissions: &Permissions, name: &str, args: &JsonValue, in_workspace: bool) -> (r: Policy)
        ensures
            r == decide(
                permissions@.mode,
                permissions@.deny.contains(name@),
                permissions@.allow.contains(name@),
                automatic(find_cap(caps_view(self.entries@), name@), permissions@.mode, *args, in_workspace),
            ),
    {
        let auto = match self.find(name) {
            None => false,
            Some(c) => match c.approval {
                Approval::Always => true,
                Approval::Ask => false,
                Approval::WorkspaceEdit => {
                    permissions.mode() == PermissionMode::AutoEdit && str_member(args, "path").is_some() && in_workspace
                },
                Approval::Shell => match str_member(args, "command") {
                    Some(command) => read_only_shell(command),
                    None => false,
                },
            },
        };
        permissions.check(name, auto)
    }
}

} // verus!
