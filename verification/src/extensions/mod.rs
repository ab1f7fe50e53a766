//! The extension host: which extensions are registered, under which tool names,
//! how their hook answers are checked and combined, and which manifests load.
//! Running an extension's process is left to the caller; everything decided
//! about what comes back is here.
use vstd::prelude::*;
use crate::text::{strings_view, push_str, chars_of};
use crate::extension_api::ui::contains_str;
use crate::json::str_eq;

pub mod chain;
pub mod hosted;
pub mod manifest;

verus! {

/// One registered extension: its name, the tools it offers and whether it
/// publishes UI.
#[derive(Debug)]
pub struct Registered {
    pub name: String,
    pub tools: Vec<String>,
    pub ui: bool,
}

/// Registered extensions in the order of their manifests, and the tool names
/// that the agent keeps for itself.
#[derive(Debug)]
pub struct Extensions {
    entries: Vec<Registered>,
    reserved: Vec<String>,
}

pub open spec fn names_of(entries: Seq<Registered>) -> Seq<Seq<char>> {
    entries.map_values(|e: Registered| e.name@)
}

/// Every tool name of the registered extensions, in order.
pub open spec fn tools_of(entries: Seq<Registered>) -> Seq<Seq<char>>
    decreases entries.len(),
{
    if entries.len() == 0 {
        Seq::empty()
    } else {
        tools_of(entries.drop_last()) + strings_view(entries.last().tools@)
    }
}

/// No name occurs twice.
pub open spec fn distinct(s: Seq<Seq<char>>) -> bool {
    forall|i: int, j: int| 0 <= i < j < s.len() ==> s[i] != s[j]
}

/// The first tool that is empty or whose name is taken, names being taken by
/// what came before it too.
pub open spec fn first_clash(taken: Seq<Seq<char>>, tools: Seq<Seq<char>>) -> Option<Seq<char>>
    decreases tools.len(),
{
    if tools.len() == 0 {
        None
    } else if tools[0].len() == 0 || taken.contains(tools[0]) {
        Some(tools[0])
    } else {
        first_clash(taken.push(tools[0]), tools.skip(1))
    }
}

/// The answer to registering an extension with these tools.
pub open spec fn register_outcome(
    entries: Seq<Registered>,
    reserved: Seq<Seq<char>>,
    name: Seq<char>,
    tools: Seq<Seq<char>>,
) -> Result<(), Seq<char>> {
    if names_of(entries).contains(name) {
        Err("duplicate extension: "@ + name)
    } else {
        match first_clash(reserved + tools_of(entries), tools) {
            Some(t) => Err("duplicate or empty tool: "@ + t),
            None => Ok(()),
        }
    }
}

/// What registration keeps: extension names are unique, and tool names are
/// non-empty, unique across all extensions and never one the agent keeps.
pub open spec fn host_wf(entries: Seq<Registered>, reserved: Seq<Seq<char>>) -> bool {
    &&& distinct(names_of(entries))
    &&& distinct(tools_of(entries))
    &&& forall|i: int| 0 <= i < tools_of(entries).len() ==> (#[trigger] tools_of(entries)[i]).len() > 0
        && !reserved.contains(tools_of(entries)[i])
}

pub open spec fn unit_view(r: Result<(), String>) -> Result<(), Seq<char>> {
    match r {
        Ok(_) => Ok(()),
        Err(e) => Err(e@),
    }
}

proof fn lemma_map_push(s: Seq<&str>, x: &str)
    ensures
        s.push(x).map_values(|y: &str| y@) == s.map_values(|y: &str| y@).push(x@),
{
    assert(s.push(x).map_values(|y: &str| y@) =~= s.map_values(|y: &str| y@).push(x@));
}

proof fn lemma_tools_of_push(entries: Seq<Registered>, e: Registered)
    ensures
        tools_of(entries.push(e)) == tools_of(entries) + strings_view(e.tools@),
{
    assert(entries.push(e).drop_last() =~= entries);
}

proof fn lemma_tools_of_take(entries: Seq<Registered>, k: int)
    requires
        0 <= k < entries.len(),
    ensures
        tools_of(entries.take(k + 1)) == tools_of(entries.take(k)) + strings_view(entries[k].tools@),
{
    assert(entries.take(k + 1).drop_last() =~= entries.take(k));
}

/// A clash-free list of new tools is non-empty, distinct and disjoint from what
/// was taken.
proof fn lemma_no_clash(taken: Seq<Seq<char>>, tools: Seq<Seq<char>>)
    requires
        first_clash(taken, tools) is None,
    ensures
        forall|i: int| 0 <= i < tools.len() ==> (#[trigger] tools[i]).len() > 0 && !taken.contains(tools[i]),
        distinct(tools),
    decreases tools.len(),
{
    if tools.len() > 0 {
        let rest = tools.skip(1);
        lemma_no_clash(taken.push(tools[0]), rest);
        assert forall|i: int| 0 <= i < tools.len() implies (#[trigger] tools[i]).len() > 0 && !taken.contains(tools[i]) by {
            if i > 0 {
                assert(tools[i] == rest[i - 1]);
                if taken.contains(tools[i]) {
                    let k = choose|k: int| 0 <= k < taken.len() && taken[k] == tools[i];
                    assert(taken.push(tools[0])[k] == tools[i]);
                }
            }
        }
        assert forall|i: int, j: int| 0 <= i < j < tools.len() implies tools[i] != tools[j] by {
            assert(tools[j] == rest[j - 1]);
            if i == 0 {
                assert(taken.push(tools[0])[taken.len() as int] == tools[0]);
            } else {
                assert(tools[i] == rest[i - 1]);
            }
        }
    }
}

impl Extensions {
    pub closed spec fn entries_view(&self) -> Seq<Registered> {
        self.entries@
    }

    pub closed spec fn reserved_view(&self) -> Seq<Seq<char>> {
        strings_view(self.reserved@)
    }

    /// The invariant that registration keeps.
    pub open spec fn wf(&self) -> bool {
        host_wf(self.entries_view(), self.reserved_view())
    }

    /// A host with no extension, keeping the given tool names for the agent.
    pub fn new(reserved: Vec<String>) -> (r: Self)
        ensures
            r.entries_view().len() == 0,
            r.reserved_view() == strings_view(reserved@),
            r.wf(),
    {
        let r = Extensions { entries: Vec::new(), reserved };
        proof {
            assert(names_of(r.entries@) =~= Seq::<Seq<char>>::empty());
        }
        r
    }

    /// The registered extensions, in order.
    pub fn entries(&self) -> (r: &Vec<Registered>)
        ensures
            r@ == self.entries_view(),
    {
        &self.entries
    }

    /// Whether an extension of this name is registered.
    fn has_extension(&self, name: &str) -> (r: bool)
        ensures
            r == names_of(self.entries_view()).contains(name@),
    {
        let ghost names = names_of(self.entries@);
        let mut i: usize = 0;
        while i < self.entries.len()
            invariant
                i <= self.entries@.len(),
                names == names_of(self.entries@),
                forall|k: int| 0 <= k < i ==> names[k] != name@,
            decreases self.entries@.len() - i,
        {
            if str_eq(self.entries[i].name.as_str(), name) {
                proof {
                    assert(names[i as int] == name@);
                }
                return true;
            }
            i = i + 1;
        }
        false
    }

    /// The names that are taken: those kept for the agent, then every registered
    /// tool in order.
    fn taken_names(&self) -> (r: Vec<&str>)
        ensures
            r@.map_values(|x: &str| x@) == self.reserved_view() + tools_of(self.entries_view()),
    {
        let mut taken: Vec<&str> = Vec::new();
        let mut i: usize = 0;
        while i < self.reserved.len()
            invariant
                i <= self.reserved@.len(),
                taken@.map_values(|x: &str| x@) == strings_view(self.reserved@).take(i as int),
            decreases self.reserved@.len() - i,
        {
            let ghost prev = taken@;
            let x = self.reserved[i].as_str();
            taken.push(x);
            proof {
                lemma_map_push(prev, x);
                assert(strings_view(self.reserved@).take(i as int + 1) =~= strings_view(self.reserved@).take(i as int).push(x@));
            }
            i = i + 1;
        }
        proof {
            assert(strings_view(self.reserved@).take(i as int) =~= strings_view(self.reserved@));
            assert(self.entries@.take(0) =~= Seq::<Registered>::empty());
            assert(strings_view(self.reserved@) + tools_of(self.entries@.take(0)) =~= strings_view(self.reserved@));
        }
        let mut k: usize = 0;
        while k < self.entries.len()
            invariant
                k <= self.entries@.len(),
                taken@.map_values(|x: &str| x@) == strings_view(self.reserved@) + tools_of(self.entries@.take(k as int)),
            decreases self.entries@.len() - k,
        {
            let tools = &self.entries[k].tools;
            let ghost before = taken@.map_values(|x: &str| x@);
            let mut j: usize = 0;
            while j < tools.len()
                invariant
                    j <= tools@.len(),
                    k < self.entries@.len(),
                    tools == &self.entries@[k as int].tools,
                    taken@.map_values(|x: &str| x@) == before + strings_view(tools@).take(j as int),
                decreases tools@.len() - j,
            {
                let ghost prev = taken@;
                let x = tools[j].as_str();
                taken.push(x);
                proof {
                    lemma_map_push(prev, x);
                    assert(strings_view(tools@).take(j as int + 1) =~= strings_view(tools@).take(j as int).push(x@));
                    assert(before + strings_view(tools@).take(j as int + 1) =~= (before + strings_view(tools@).take(j as int)).push(x@));
                }
                j = j + 1;
            }
            proof {
                assert(strings_view(tools@).take(j as int) =~= strings_view(tools@));
                lemma_tools_of_take(self.entries@, k as int);
                assert(taken@.map_values(|x: &str| x@) =~= strings_view(self.reserved@) + tools_of(self.entries@.take(k as int + 1)));
            }
            k = k + 1;
        }
        proof {
            assert(self.entries@.take(k as int) =~= self.entries@);
        }
        taken
    }

    /// Adds an extension, refusing a name that is already registered and a tool
    /// that is empty or whose name is taken (by the agent, by an extension or by
    /// an earlier tool of the same extension).
    pub fn register(&mut self, name: String, tools: Vec<String>, ui: bool) -> (r: Result<(), String>)
        ensures
            unit_view(r) == register_outcome(old(self).entries_view(), old(self).reserved_view(), name@, strings_view(tools@)),
            final(self).reserved_view() == old(self).reserved_view(),
            r is Ok ==> final(self).entries_view() == old(self).entries_view().push(Registered { name, tools, ui }),
            r is Err ==> final(self).entries_view() == old(self).entries_view(),
            old(self).wf() ==> final(self).wf(),
    {
        if self.has_extension(name.as_str()) {
            let mut e = "duplicate extension: ".to_owned();
            push_str(&mut e, name.as_str());
            return Err(e);
        }
        let clash = {
            let mut taken = self.taken_names();
            let ghost taken0 = taken@.map_values(|x: &str| x@);
            let ghost tv = strings_view(tools@);
            let mut clash: Option<usize> = None;
            let mut i: usize = 0;
            proof {
                assert(tv.skip(0) =~= tv);
                assert(taken0 + tv.take(0) =~= taken0);
            }
            while clash.is_none() && i < tools.len()
                invariant
                    i <= tools@.len(),
                    tv == strings_view(tools@),
                    taken@.map_values(|x: &str| x@) == taken0 + tv.take(i as int),
                    clash is None ==> first_clash(taken0, tv) == first_clash(taken0 + tv.take(i as int), tv.skip(i as int)),
                    clash matches Some(c) ==> c < tools@.len() && first_clash(taken0, tv) == Some(tv[c as int]),
                decreases tools@.len() - i + (if clash is None { 1int } else { 0int }),
            {
                let t = tools[i].as_str();
                proof {
                    assert(tv.skip(i as int)[0] == tv[i as int]);
                    assert(tv.skip(i as int).skip(1) =~= tv.skip(i as int + 1));
                    assert((taken0 + tv.take(i as int)).push(tv[i as int]) =~= taken0 + tv.take(i as int + 1));
                }
                let empty = chars_of(t).len() == 0;
                if empty || contains_str(&taken, t) {
                    clash = Some(i);
                } else {
                    taken.push(t);
                    proof {
                        assert(taken@.map_values(|x: &str| x@) =~= taken0 + tv.take(i as int + 1));
                    }
                    i = i + 1;
                }
            }
            proof {
                if clash is None {
                    assert(tv.skip(i as int).len() == 0);
                }
            }
            clash
        };
        match clash {
            Some(c) => {
                let mut e = "duplicate or empty tool: ".to_owned();
                push_str(&mut e, tools[c].as_str());
                Err(e)
            },
            None => {
                let ghost old_entries = self.entries@;
                let ghost reserved = strings_view(self.reserved@);
                let entry = Registered { name, tools, ui };
                self.entries.push(entry);
                proof {
                    lemma_tools_of_push(old_entries, entry);
                    lemma_no_clash(reserved + tools_of(old_entries), strings_view(entry.tools@));
                    if host_wf(old_entries, reserved) {
                        let ot = tools_of(old_entries);
                        let nt = strings_view(entry.tools@);
                        let all = tools_of(self.entries@);
                        assert(all == ot + nt);
                        assert forall|i: int| 0 <= i < all.len() implies (#[trigger] all[i]).len() > 0 && !reserved.contains(all[i]) by {
                            if i >= ot.len() {
                                assert(all[i] == nt[i - ot.len()]);
                                if reserved.contains(all[i]) {
                                    let k = choose|k: int| 0 <= k < reserved.len() && reserved[k] == all[i];
                                    assert((reserved + ot)[k] == all[i]);
                                }
                            } else {
                                assert(all[i] == ot[i]);
                            }
                        }
                        assert forall|i: int, j: int| 0 <= i < j < all.len() implies all[i] != all[j] by {
                            if j >= ot.len() {
                                assert(all[j] == nt[j - ot.len()]);
                                if i >= ot.len() {
                                    assert(all[i] == nt[i - ot.len()]);
                                } else {
                                    assert(all[i] == ot[i]);
                                    assert((reserved + ot)[reserved.len() + i] == all[i]);
                                }
                            } else {
                                assert(all[i] == ot[i] && all[j] == ot[j]);
                            }
                        }
                        let nn = names_of(self.entries@);
                        let on = names_of(old_entries);
                        assert forall|i: int, j: int| 0 <= i < j < nn.len() implies nn[i] != nn[j] by {
                            if j == on.len() {
                                assert(nn[i] == on[i]);
                            } else {
                                assert(nn[i] == on[i] && nn[j] == on[j]);
                            }
                        }
                    }
                }
                Ok(())
            },
        }
    }

    /// Every tool name of the registered extensions, in order.
    pub fn tools(&self) -> (r: Vec<String>)
        ensures
            strings_view(r@) == tools_of(self.entries_view()),
    {
        let mut out: Vec<String> = Vec::new();
        let mut k: usize = 0;
        proof {
            assert(self.entries@.take(0) =~= Seq::<Registered>::empty());
            assert(strings_view(out@) =~= Seq::<Seq<char>>::empty());
        }
        while k < self.entries.len()
            invariant
                k <= self.entries@.len(),
                strings_view(out@) == tools_of(self.entries@.take(k as int)),
            decreases self.entries@.len() - k,
        {
            let tools = &self.entries[k].tools;
            let ghost before = strings_view(out@);
            let mut j: usize = 0;
            while j < tools.len()
                invariant
                    j <= tools@.len(),
                    k < self.entries@.len(),
                    tools == &self.entries@[k as int].tools,
                    strings_view(out@) == before + strings_view(tools@).take(j as int),
                decreases tools@.len() - j,
            {
                let ghost prev = out@;
                let x = tools[j].clone();
                out.push(x);
                proof {
                    assert(strings_view(out@) =~= strings_view(prev).push(x@));
                    assert(strings_view(tools@).take(j as int + 1) =~= strings_view(tools@).take(j as int).push(x@));
                    assert(before + strings_view(tools@).take(j as int + 1) =~= (before + strings_view(tools@).take(j as int)).push(x@));
                }
                j = j + 1;
            }
            proof {
                assert(strings_view(tools@).take(j as int) =~= strings_view(tools@));
                lemma_tools_of_take(self.entries@, k as int);
            }
            k = k + 1;
        }
        proof {
            assert(self.entries@.take(k as int) =~= self.entries@);
        }
        out
    }

    /// The positions of the extensions that publish UI, in order.
    pub fn ui_extensions(&self) -> (r: Vec<usize>)
        ensures
            forall|i: int| 0 <= i < r@.len() ==> (#[trigger] r@[i]) < self.entries_view().len()
                && self.entries_view()[r@[i] as int].ui,
            forall|k: int| 0 <= k < self.entries_view().len() && (#[trigger] self.entries_view()[k]).ui
                ==> r@.contains(k as usize),
            forall|i: int, j: int| 0 <= i < j < r@.len() ==> r@[i] < r@[j],
    {
        let mut out: Vec<usize> = Vec::new();
        let mut k: usize = 0;
        while k < self.entries.len()
            invariant
                k <= self.entries@.len(),
                forall|i: int| 0 <= i < out@.len() ==> (#[trigger] out@[i]) < k && self.entries@[out@[i] as int].ui,
                forall|m: int| 0 <= m < k && (#[trigger] self.entries@[m]).ui ==> out@.contains(m as usize),
                forall|i: int, j: int| 0 <= i < j < out@.len() ==> out@[i] < out@[j],
            decreases self.entries@.len() - k,
        {
            if self.entries[k].ui {
                let ghost prev = out@;
                out.push(k);
                proof {
                    assert(out@[out@.len() - 1] == k);
                    assert forall|m: int| 0 <= m < k + 1 && (#[trigger] self.entries@[m]).ui implies out@.contains(m as usize) by {
                        if m < k {
                            assert(prev.contains(m as usize));
                            let t = choose|t: int| 0 <= t < prev.len() && prev[t] == m as usize;
                            assert(out@[t] == prev[t]);
                        } else {
                            assert(out@[out@.len() - 1] == m as usize);
                        }
                    }
                }
            }
            k = k + 1;
        }
        out
    }

    /// Each tool with the position of the extension that offers it, in order.
    pub fn tool_entries(&self) -> (r: Vec<(String, usize)>)
        ensures
            r@.map_values(|p: (String, usize)| p.0@) == tools_of(self.entries_view()),
            forall|i: int| 0 <= i < r@.len() ==> (#[trigger] r@[i]).1 < self.entries_view().len()
                && strings_view(self.entries_view()[r@[i].1 as int].tools@).contains(r@[i].0@),
    {
        let mut out: Vec<(String, usize)> = Vec::new();
        let mut k: usize = 0;
        proof {
            assert(self.entries@.take(0) =~= Seq::<Registered>::empty());
            assert(out@.map_values(|p: (String, usize)| p.0@) =~= Seq::<Seq<char>>::empty());
        }
        while k < self.entries.len()
            invariant
                k <= self.entries@.len(),
                out@.map_values(|p: (String, usize)| p.0@) == tools_of(self.entries@.take(k as int)),
                forall|i: int| 0 <= i < out@.len() ==> (#[trigger] out@[i]).1 < k
                    && strings_view(self.entries@[out@[i].1 as int].tools@).contains(out@[i].0@),
            decreases self.entries@.len() - k,
        {
            let tools = &self.entries[k].tools;
            let ghost before = out@.map_values(|p: (String, usize)| p.0@);
            let mut j: usize = 0;
            while j < tools.len()
                invariant
                    j <= tools@.len(),
                    k < self.entries@.len(),
                    tools == &self.entries@[k as int].tools,
                    out@.map_values(|p: (String, usize)| p.0@) == before + strings_view(tools@).take(j as int),
                    forall|i: int| 0 <= i < out@.len() ==> (#[trigger] out@[i]).1 < k + 1
                        && strings_view(self.entries@[out@[i].1 as int].tools@).contains(out@[i].0@),
                decreases tools@.len() - j,
            {
                let ghost prev = out@;
                let x = tools[j].clone();
                out.push((x, k));
                proof {
                    assert(out@.map_values(|p: (String, usize)| p.0@) =~= prev.map_values(|p: (String, usize)| p.0@).push(x@));
                    assert(strings_view(tools@).take(j as int + 1) =~= strings_view(tools@).take(j as int).push(x@));
                    assert(before + strings_view(tools@).take(j as int + 1) =~= (before + strings_view(tools@).take(j as int)).push(x@));
                    assert(strings_view(tools@)[j as int] == x@);
                    assert forall|i: int| 0 <= i < out@.len() implies (#[trigger] out@[i]).1 < k + 1
                        && strings_view(self.entries@[out@[i].1 as int].tools@).contains(out@[i].0@) by {
                        if i < prev.len() {
                            assert(out@[i] == prev[i]);
                        }
                    }
                }
                j = j + 1;
            }
            proof {
                assert(strings_view(tools@).take(j as int) =~= strings_view(tools@));
                lemma_tools_of_take(self.entries@, k as int);
            }
            k = k + 1;
        }
        proof {
            assert(self.entries@.take(k as int) =~= self.entries@);
        }
        out
    }
}

/// Once an extension is registered, no later registration can reuse its name
/// or any of its tool names: both are refused.
pub proof fn law_registered_names_stay_taken(
    entries: Seq<Registered>,
    reserved: Seq<Seq<char>>,
    e: Registered,
    name: Seq<char>,
    tools: Seq<Seq<char>>,
)
    requires
        register_outcome(entries, reserved, e.name@, strings_view(e.tools@)) is Ok,
        name == e.name@ || (exists|i: int| 0 <= i < tools.len() && strings_view(e.tools@).contains(#[trigger] tools[i])),
    ensures
        register_outcome(entries.push(e), reserved, name, tools) is Err,
{
    let after = entries.push(e);
    assert(names_of(after)[entries.len() as int] == e.name@);
    if !names_of(after).contains(name) {
        let i = choose|i: int| 0 <= i < tools.len() && strings_view(e.tools@).contains(#[trigger] tools[i]);
        lemma_tools_of_push(entries, e);
        let taken = reserved + tools_of(after);
        if first_clash(taken, tools) is None {
            lemma_no_clash(taken, tools);
            let k = choose|k: int| 0 <= k < strings_view(e.tools@).len() && strings_view(e.tools@)[k] == tools[i];
            assert(taken[reserved.len() + tools_of(entries).len() + k] == tools[i]);
        }
    }
}

} // verus!
