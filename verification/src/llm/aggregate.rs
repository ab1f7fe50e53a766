//! Aggregates streamed deltas into a final assistant message.
use vstd::prelude::*;
use crate::text::push_str;
use super::{FunctionCall, Message, StreamDelta, StreamDeltaView, ToolCall, ToolCallDelta, ToolCallDeltaView, opt_view};

verus! {

/// One tool call under construction.
#[derive(Debug)]
struct ToolCallBuild {
    id: Option<String>,
    name: String,
    arguments: String,
}

pub struct BuildView {
    pub id: Option<Seq<char>>,
    pub name: Seq<char>,
    pub arguments: Seq<char>,
}

pub open spec fn empty_build() -> BuildView {
    BuildView { id: None, name: Seq::empty(), arguments: Seq::empty() }
}

pub open spec fn opt_text(o: Option<Seq<char>>) -> Seq<char> {
    match o {
        Some(s) => s,
        None => Seq::empty(),
    }
}

/// A fragment replaces the id when it has one and extends name and arguments.
pub open spec fn merge_build(b: BuildView, tc: ToolCallDeltaView) -> BuildView {
    BuildView {
        id: if tc.id is Some { tc.id } else { b.id },
        name: b.name + opt_text(tc.name),
        arguments: b.arguments + opt_text(tc.arguments),
    }
}

/// Entries are ordered by strictly increasing index.
pub open spec fn sorted_calls(calls: Seq<(usize, BuildView)>) -> bool {
    forall|i: int, j: int| 0 <= i < j < calls.len() ==> calls[i].0 < calls[j].0
}

/// Number of entries whose index is below `k`.
pub open spec fn lower_count(calls: Seq<(usize, BuildView)>, k: usize) -> nat
    decreases calls.len(),
{
    if calls.len() == 0 {
        0
    } else if calls[0].0 < k {
        1 + lower_count(calls.drop_first(), k)
    } else {
        0
    }
}

/// Files one fragment under its index.
pub open spec fn apply_fragment(calls: Seq<(usize, BuildView)>, tc: ToolCallDeltaView) -> Seq<(usize, BuildView)> {
    let p = lower_count(calls, tc.index) as int;
    if p < calls.len() && calls[p].0 == tc.index {
        calls.update(p, (tc.index, merge_build(calls[p].1, tc)))
    } else {
        calls.insert(p, (tc.index, merge_build(empty_build(), tc)))
    }
}

pub open spec fn apply_fragments(calls: Seq<(usize, BuildView)>, tcs: Seq<ToolCallDeltaView>) -> Seq<(usize, BuildView)>
    decreases tcs.len(),
{
    if tcs.len() == 0 {
        calls
    } else {
        apply_fragment(apply_fragments(calls, tcs.drop_last()), tcs.last())
    }
}

pub struct AggregatorView {
    pub reasoning: Option<Seq<char>>,
    pub content: Seq<char>,
    pub calls: Seq<(usize, BuildView)>,
}

/// What one delta does to the aggregate.
pub open spec fn push_delta(a: AggregatorView, d: StreamDeltaView) -> AggregatorView {
    AggregatorView {
        reasoning: match d.reasoning_content {
            Some(r) => Some(opt_text(a.reasoning) + r),
            None => a.reasoning,
        },
        content: a.content + opt_text(d.content),
        calls: apply_fragments(a.calls, d.tool_calls),
    }
}

/// Aggregates streamed deltas into a final assistant message.
/// Tool call fragments are concatenated in arrival order, grouped by `index`.
#[derive(Debug)]
pub struct DeltaAggregator {
    reasoning_content: Option<String>,
    content: String,
    tool_calls: Vec<(usize, ToolCallBuild)>,
}

spec fn build_view(b: ToolCallBuild) -> BuildView {
    BuildView { id: opt_view(b.id), name: b.name@, arguments: b.arguments@ }
}

spec fn calls_view(v: Seq<(usize, ToolCallBuild)>) -> Seq<(usize, BuildView)> {
    v.map_values(|e: (usize, ToolCallBuild)| (e.0, build_view(e.1)))
}

impl View for DeltaAggregator {
    type V = AggregatorView;

    closed spec fn view(&self) -> AggregatorView {
        AggregatorView {
            reasoning: opt_view(self.reasoning_content),
            content: self.content@,
            calls: calls_view(self.tool_calls@),
        }
    }
}

impl Default for DeltaAggregator {
    fn default() -> (r: Self)
        ensures
            r@.reasoning is None,
            r@.content.len() == 0,
            r@.calls.len() == 0,
    {
        let r = DeltaAggregator { reasoning_content: None, content: String::new(), tool_calls: Vec::new() };
        proof {
            assert(calls_view(r.tool_calls@) =~= Seq::<(usize, BuildView)>::empty());
        }
        r
    }
}

proof fn lemma_lower_count(calls: Seq<(usize, BuildView)>, k: usize)
    requires
        sorted_calls(calls),
    ensures
        lower_count(calls, k) <= calls.len(),
        forall|i: int| 0 <= i < lower_count(calls, k) ==> calls[i].0 < k,
        forall|i: int| lower_count(calls, k) <= i < calls.len() ==> calls[i].0 >= k,
    decreases calls.len(),
{
    if calls.len() > 0 && calls[0].0 < k {
        let t = calls.drop_first();
        assert(sorted_calls(t)) by {
            assert forall|i: int, j: int| 0 <= i < j < t.len() implies t[i].0 < t[j].0 by {
                assert(t[i] == calls[i + 1] && t[j] == calls[j + 1]);
            }
        }
        lemma_lower_count(t, k);
        assert forall|i: int| 0 <= i < lower_count(calls, k) implies calls[i].0 < k by {
            if i > 0 {
                assert(calls[i] == t[i - 1]);
            }
        }
        assert forall|i: int| lower_count(calls, k) <= i < calls.len() implies calls[i].0 >= k by {
            assert(calls[i] == t[i - 1]);
        }
    } else if calls.len() > 0 {
        assert forall|i: int| 0 <= i < calls.len() implies calls[i].0 >= k by {
            if i > 0 {
                assert(calls[0].0 < calls[i].0);
            }
        }
    }
}

/// The position of index `k`, found by scanning: the number of smaller indices.
fn position(calls: &Vec<(usize, ToolCallBuild)>, k: usize) -> (r: usize)
    requires
        sorted_calls(calls_view(calls@)),
    ensures
        r == lower_count(calls_view(calls@), k),
{
    let ghost cv = calls_view(calls@);
    proof {
        lemma_lower_count(cv, k);
    }
    let mut p: usize = 0;
    while p < calls.len() && calls[p].0 < k
        invariant
            p <= calls@.len(),
            cv == calls_view(calls@),
            forall|i: int| 0 <= i < p ==> cv[i].0 < k,
            lower_count(cv, k) <= cv.len(),
            forall|i: int| 0 <= i < lower_count(cv, k) ==> cv[i].0 < k,
            forall|i: int| lower_count(cv, k) <= i < cv.len() ==> cv[i].0 >= k,
        decreases calls@.len() - p,
    {
        p = p + 1;
    }
    proof {
        let lc = lower_count(cv, k) as int;
        if p < calls@.len() {
            assert(cv[p as int].0 == calls@[p as int].0);
        }
        if p < lc {
            assert(cv[p as int].0 < k);
        }
        if p > lc {
            assert(cv[lc].0 < k);
        }
    }
    p
}

fn append_opt(s: &mut String, t: &Option<String>)
    ensures
        final(s)@ == old(s)@ + opt_text(opt_view(*t)),
{
    match t {
        Some(t) => push_str(s, t.as_str()),
        None => {
            assert(old(s)@ + Seq::<char>::empty() =~= old(s)@);
        },
    }
}

impl DeltaAggregator {
    #[verifier::type_invariant]
    spec fn wf(&self) -> bool {
        sorted_calls(calls_view(self.tool_calls@))
    }
}

/// Files one fragment in a sorted list of tool calls under construction.
fn push_fragment(calls: &mut Vec<(usize, ToolCallBuild)>, tc: &ToolCallDelta)
    requires
        sorted_calls(calls_view(old(calls)@)),
    ensures
        sorted_calls(calls_view(final(calls)@)),
        calls_view(final(calls)@) == apply_fragment(calls_view(old(calls)@), tc@),
{
        let ghost before = calls_view(calls@);
        let p = position(calls, tc.index);
        proof {
            lemma_lower_count(before, tc.index);
        }
        if p < calls.len() && calls[p].0 == tc.index {
            let mut entry = calls.remove(p);
            let ghost old_entry = entry;
            if let Some(id) = &tc.id {
                entry.1.id = Some(id.clone());
            }
            append_opt(&mut entry.1.name, &tc.name);
            append_opt(&mut entry.1.arguments, &tc.arguments);
            calls.insert(p, entry);
            proof {
                assert(build_view(entry.1) == merge_build(build_view(old_entry.1), tc@));
                assert(calls_view(calls@) =~= before.update(
                    p as int,
                    (tc.index, merge_build(before[p as int].1, tc@)),
                ));
            }
        } else {
            let mut entry = ToolCallBuild { id: None, name: String::new(), arguments: String::new() };
            if let Some(id) = &tc.id {
                entry.id = Some(id.clone());
            }
            append_opt(&mut entry.name, &tc.name);
            append_opt(&mut entry.arguments, &tc.arguments);
            calls.insert(p, (tc.index, entry));
            proof {
                assert(build_view(entry) == merge_build(empty_build(), tc@));
                assert(calls_view(calls@) =~= before.insert(
                    p as int,
                    (tc.index, merge_build(empty_build(), tc@)),
                ));
            }
        }
        proof {
            let after = calls_view(calls@);
            assert(sorted_calls(after)) by {
                assert forall|i: int, j: int| 0 <= i < j < after.len() implies after[i].0 < after[j].0 by {
                    if after.len() == before.len() {
                        assert(after[i].0 == before[i].0 && after[j].0 == before[j].0);
                    } else {
                        if j < p {
                            assert(after[i] == before[i] && after[j] == before[j]);
                        } else if j == p {
                            assert(after[i] == before[i]);
                        } else if i == p {
                            assert(after[j] == before[j - 1]);
                        } else if i < p {
                            assert(after[i] == before[i] && after[j] == before[j - 1]);
                        } else {
                            assert(after[i] == before[i - 1] && after[j] == before[j - 1]);
                        }
                    }
                }
            }
        }
}

impl DeltaAggregator {
    pub fn push(&mut self, delta: &StreamDelta)
        ensures
            final(self)@ == push_delta(old(self)@, delta@),
    {
        proof {
            use_type_invariant(&*self);
        }
        let mut taken = DeltaAggregator { reasoning_content: None, content: String::new(), tool_calls: Vec::new() };
        proof {
            assert(calls_view(taken.tool_calls@) =~= Seq::<(usize, BuildView)>::empty());
        }
        std::mem::swap(self, &mut taken);
        let ghost start = taken@;
        let DeltaAggregator { reasoning_content, mut content, mut tool_calls } = taken;
        proof {
            assert(start.calls == calls_view(tool_calls@));
        }
        let reasoning_content = match &delta.reasoning_content {
            Some(reasoning) => {
                let mut r = match &reasoning_content {
                    Some(prev) => prev.clone(),
                    None => String::new(),
                };
                push_str(&mut r, reasoning.as_str());
                Some(r)
            },
            None => reasoning_content,
        };
        append_opt(&mut content, &delta.content);
        let ghost tcs = delta@.tool_calls;
        let mut i: usize = 0;
        while i < delta.tool_calls.len()
            invariant
                sorted_calls(calls_view(tool_calls@)),
                i <= delta.tool_calls@.len(),
                tcs == delta@.tool_calls,
                tcs.len() == delta.tool_calls@.len(),
                calls_view(tool_calls@) == apply_fragments(start.calls, tcs.take(i as int)),
            decreases delta.tool_calls@.len() - i,
        {
            push_fragment(&mut tool_calls, &delta.tool_calls[i]);
            proof {
                assert(tcs.take(i as int + 1).drop_last() =~= tcs.take(i as int));
                assert(tcs[i as int] == delta.tool_calls@[i as int]@);
            }
            i = i + 1;
        }
        proof {
            assert(tcs.take(tcs.len() as int) =~= tcs);
        }
        *self = DeltaAggregator { reasoning_content, content, tool_calls };
    }

    pub fn into_message(self) -> (r: Message)
        ensures
            r.role@ == "assistant"@,
            opt_view(r.reasoning_content) == self@.reasoning,
            if self@.content.len() == 0 {
                r.content is None
            } else {
                r.content matches Some(c) && c@ == self@.content
            },
            if self@.calls.len() == 0 {
                r.tool_calls is None
            } else {
                r.tool_calls matches Some(calls) && calls@.len() == self@.calls.len() && forall|i: int|
                    0 <= i < calls@.len() ==> {
                        let b = #[trigger] self@.calls[i].1;
                        &&& calls@[i].id@ == opt_text(b.id)
                        &&& calls@[i].kind@ == "function"@
                        &&& calls@[i].function.name@ == b.name
                        &&& calls@[i].function.arguments@ == b.arguments
                    }
            },
            r.images@.len() == 0,
            r.tool_call_id is None,
            r.name is None,
    {
        proof {
            use_type_invariant(&self);
        }
        let ghost v = self@;
        let DeltaAggregator { reasoning_content, content, tool_calls } = self;
        let mut calls: Vec<ToolCall> = Vec::new();
        let mut i: usize = 0;
        while i < tool_calls.len()
            invariant
                i <= tool_calls@.len(),
                v.calls == calls_view(tool_calls@),
                calls@.len() == i,
                forall|j: int|
                    0 <= j < i ==> {
                        let b = #[trigger] v.calls[j].1;
                        &&& calls@[j].id@ == opt_text(b.id)
                        &&& calls@[j].kind@ == "function"@
                        &&& calls@[j].function.name@ == b.name
                        &&& calls@[j].function.arguments@ == b.arguments
                    },
            decreases tool_calls@.len() - i,
        {
            let entry = &tool_calls[i].1;
            let id = match &entry.id {
                Some(id) => id.clone(),
                None => String::new(),
            };
            calls.push(
                ToolCall {
                    id: id,
                    kind: "function".to_owned(),
                    function: FunctionCall { name: entry.name.clone(), arguments: entry.arguments.clone() },
                },
            );
            i = i + 1;
        }
        Message {
            role: "assistant".to_owned(),
            content: if content.as_str().is_empty() { None } else { Some(content) },
            images: Vec::new(),
            reasoning_content: reasoning_content,
            tool_calls: if calls.len() == 0 { None } else { Some(calls) },
            tool_call_id: None,
            name: None,
        }
    }
}

/// Some entry is filed under index `k`.
pub open spec fn has_index(calls: Seq<(usize, BuildView)>, k: usize) -> bool {
    exists|i: int| 0 <= i < calls.len() && (#[trigger] calls[i]).0 == k
}

/// The call filed under index `k`, or an empty one when there is none.
pub open spec fn entry_at(calls: Seq<(usize, BuildView)>, k: usize) -> BuildView {
    if has_index(calls, k) {
        calls[choose|i: int| 0 <= i < calls.len() && (#[trigger] calls[i]).0 == k].1
    } else {
        empty_build()
    }
}

/// Some fragment carries index `k`.
pub open spec fn fragment_for(tcs: Seq<ToolCallDeltaView>, k: usize) -> bool {
    exists|j: int| 0 <= j < tcs.len() && (#[trigger] tcs[j]).index == k
}

/// The argument pieces of the fragments with index `k`, in arrival order.
pub open spec fn arguments_for(tcs: Seq<ToolCallDeltaView>, k: usize) -> Seq<char>
    decreases tcs.len(),
{
    if tcs.len() == 0 {
        Seq::empty()
    } else {
        arguments_for(tcs.drop_last(), k) + if tcs.last().index == k { opt_text(tcs.last().arguments) } else { Seq::empty() }
    }
}

/// The name pieces of the fragments with index `k`, in arrival order.
pub open spec fn names_for(tcs: Seq<ToolCallDeltaView>, k: usize) -> Seq<char>
    decreases tcs.len(),
{
    if tcs.len() == 0 {
        Seq::empty()
    } else {
        names_for(tcs.drop_last(), k) + if tcs.last().index == k { opt_text(tcs.last().name) } else { Seq::empty() }
    }
}

/// The id that the last fragment with index `k` carrying one gave, or `before`.
pub open spec fn last_id(tcs: Seq<ToolCallDeltaView>, k: usize, before: Option<Seq<char>>) -> Option<Seq<char>>
    decreases tcs.len(),
{
    if tcs.len() == 0 {
        before
    } else if tcs.last().index == k && tcs.last().id is Some {
        tcs.last().id
    } else {
        last_id(tcs.drop_last(), k, before)
    }
}

proof fn lemma_entry_at(calls: Seq<(usize, BuildView)>, i: int)
    requires
        sorted_calls(calls),
        0 <= i < calls.len(),
    ensures
        has_index(calls, calls[i].0),
        entry_at(calls, calls[i].0) == calls[i].1,
{
    let k = calls[i].0;
    assert(has_index(calls, k));
    let j = choose|j: int| 0 <= j < calls.len() && (#[trigger] calls[j]).0 == k;
    if j < i {
        assert(calls[j].0 < calls[i].0);
    } else if j > i {
        assert(calls[i].0 < calls[j].0);
    }
}

/// One fragment: the other calls stay, the fragment's index gets an entry, and
/// that entry is the merge of the fragment into what was filed there.
#[verifier::rlimit(60)]
proof fn lemma_apply_fragment(calls: Seq<(usize, BuildView)>, tc: ToolCallDeltaView)
    requires
        sorted_calls(calls),
    ensures
        sorted_calls(apply_fragment(calls, tc)),
        forall|k: usize| #[trigger] has_index(apply_fragment(calls, tc), k) <==> has_index(calls, k) || k == tc.index,
        forall|k: usize| #[trigger] entry_at(apply_fragment(calls, tc), k) == if k == tc.index {
            merge_build(entry_at(calls, k), tc)
        } else {
            entry_at(calls, k)
        },
{
    let idx = tc.index;
    let p = lower_count(calls, idx) as int;
    lemma_lower_count(calls, idx);
    let r = apply_fragment(calls, tc);
    if p < calls.len() && calls[p].0 == idx {
        assert(r == calls.update(p, (idx, merge_build(calls[p].1, tc))));
        assert(sorted_calls(r)) by {
            assert forall|i: int, j: int| 0 <= i < j < r.len() implies r[i].0 < r[j].0 by {
                assert(r[i].0 == calls[i].0 && r[j].0 == calls[j].0);
            }
        }
        lemma_entry_at(calls, p);
        lemma_entry_at(r, p);
        assert forall|k: usize| #[trigger] has_index(r, k) <==> has_index(calls, k) || k == idx by {
            if has_index(r, k) {
                let i = choose|i: int| 0 <= i < r.len() && (#[trigger] r[i]).0 == k;
                assert(r[i].0 == calls[i].0);
            }
            if has_index(calls, k) {
                let i = choose|i: int| 0 <= i < calls.len() && (#[trigger] calls[i]).0 == k;
                assert(r[i].0 == calls[i].0);
            }
        }
        assert forall|k: usize| #[trigger] entry_at(r, k) == if k == idx {
            merge_build(entry_at(calls, k), tc)
        } else {
            entry_at(calls, k)
        } by {
            if k != idx && has_index(calls, k) {
                let i = choose|i: int| 0 <= i < calls.len() && (#[trigger] calls[i]).0 == k;
                lemma_entry_at(calls, i);
                assert(r[i] == calls[i]);
                lemma_entry_at(r, i);
            } else if k != idx {
                if has_index(r, k) {
                    let i = choose|i: int| 0 <= i < r.len() && (#[trigger] r[i]).0 == k;
                    assert(r[i].0 == calls[i].0);
                }
            }
        }
    } else {
        let e = (idx, merge_build(empty_build(), tc));
        assert(r == calls.insert(p, e));
        assert(!has_index(calls, idx)) by {
            if has_index(calls, idx) {
                let i = choose|i: int| 0 <= i < calls.len() && (#[trigger] calls[i]).0 == idx;
                if i > p {
                    assert(calls[p].0 < calls[i].0);
                }
            }
        }
        assert(forall|i: int| 0 <= i < p ==> #[trigger] r[i] == calls[i]);
        assert(forall|i: int| p < i < r.len() ==> #[trigger] r[i] == calls[i - 1]);
        assert(r[p] == e);
        assert(sorted_calls(r)) by {
            assert forall|i: int, j: int| 0 <= i < j < r.len() implies r[i].0 < r[j].0 by {
                if j < p {
                } else if j == p {
                } else if i == p {
                    assert(r[j] == calls[j - 1]);
                } else if i < p {
                    assert(r[j] == calls[j - 1]);
                } else {
                    assert(r[i] == calls[i - 1] && r[j] == calls[j - 1]);
                }
            }
        }
        lemma_entry_at(r, p);
        assert forall|k: usize| #[trigger] has_index(r, k) <==> has_index(calls, k) || k == idx by {
            if has_index(r, k) {
                let i = choose|i: int| 0 <= i < r.len() && (#[trigger] r[i]).0 == k;
                if i < p {
                    assert(calls[i].0 == k);
                } else if i > p {
                    assert(calls[i - 1].0 == k);
                }
            }
            if has_index(calls, k) {
                let i = choose|i: int| 0 <= i < calls.len() && (#[trigger] calls[i]).0 == k;
                if i < p {
                    assert(r[i].0 == k);
                } else {
                    assert(r[i + 1] == calls[i]);
                }
            }
        }
        assert forall|k: usize| #[trigger] entry_at(r, k) == if k == idx {
            merge_build(entry_at(calls, k), tc)
        } else {
            entry_at(calls, k)
        } by {
            if k != idx && has_index(calls, k) {
                let i = choose|i: int| 0 <= i < calls.len() && (#[trigger] calls[i]).0 == k;
                lemma_entry_at(calls, i);
                if i < p {
                    lemma_entry_at(r, i);
                } else {
                    assert(r[i + 1] == calls[i]);
                    lemma_entry_at(r, i + 1);
                }
            } else if k != idx {
                if has_index(r, k) {
                    let i = choose|i: int| 0 <= i < r.len() && (#[trigger] r[i]).0 == k;
                    if i < p {
                        assert(calls[i].0 == k);
                    } else if i > p {
                        assert(calls[i - 1].0 == k);
                    }
                }
            }
        }
    }
}

proof fn lemma_apply_fragments(calls: Seq<(usize, BuildView)>, tcs: Seq<ToolCallDeltaView>)
    requires
        sorted_calls(calls),
    ensures
        sorted_calls(apply_fragments(calls, tcs)),
        forall|k: usize| #[trigger] has_index(apply_fragments(calls, tcs), k) <==> has_index(calls, k) || fragment_for(tcs, k),
        forall|k: usize| #[trigger] entry_at(apply_fragments(calls, tcs), k) == (BuildView {
            id: last_id(tcs, k, entry_at(calls, k).id),
            name: entry_at(calls, k).name + names_for(tcs, k),
            arguments: entry_at(calls, k).arguments + arguments_for(tcs, k),
        }),
    decreases tcs.len(),
{
    if tcs.len() == 0 {
        assert forall|k: usize| #[trigger] entry_at(apply_fragments(calls, tcs), k) == (BuildView {
            id: last_id(tcs, k, entry_at(calls, k).id),
            name: entry_at(calls, k).name + names_for(tcs, k),
            arguments: entry_at(calls, k).arguments + arguments_for(tcs, k),
        }) by {
            assert(entry_at(calls, k).name + Seq::<char>::empty() =~= entry_at(calls, k).name);
            assert(entry_at(calls, k).arguments + Seq::<char>::empty() =~= entry_at(calls, k).arguments);
        }
    } else {
        let init = tcs.drop_last();
        let tc = tcs.last();
        lemma_apply_fragments(calls, init);
        let mid = apply_fragments(calls, init);
        lemma_apply_fragment(mid, tc);
        assert forall|k: usize| #[trigger] has_index(apply_fragments(calls, tcs), k) <==> has_index(calls, k) || fragment_for(tcs, k) by {
            if fragment_for(init, k) {
                let j = choose|j: int| 0 <= j < init.len() && (#[trigger] init[j]).index == k;
                assert(tcs[j] == init[j]);
            }
            if fragment_for(tcs, k) && k != tc.index {
                let j = choose|j: int| 0 <= j < tcs.len() && (#[trigger] tcs[j]).index == k;
                assert(init[j] == tcs[j]);
            }
            assert(tcs[tcs.len() - 1] == tc);
        }
        assert forall|k: usize| #[trigger] entry_at(apply_fragments(calls, tcs), k) == (BuildView {
            id: last_id(tcs, k, entry_at(calls, k).id),
            name: entry_at(calls, k).name + names_for(tcs, k),
            arguments: entry_at(calls, k).arguments + arguments_for(tcs, k),
        }) by {
            let e = entry_at(calls, k);
            assert(entry_at(mid, k) == (BuildView {
                id: last_id(init, k, e.id),
                name: e.name + names_for(init, k),
                arguments: e.arguments + arguments_for(init, k),
            }));
            if k == tc.index {
                assert(e.name + names_for(init, k) + opt_text(tc.name) =~= e.name + names_for(tcs, k));
                assert(e.arguments + arguments_for(init, k) + opt_text(tc.arguments) =~= e.arguments + arguments_for(tcs, k));
            } else {
                assert(names_for(tcs, k) =~= names_for(init, k));
                assert(arguments_for(tcs, k) =~= arguments_for(init, k));
            }
        }
    }
}

/// A delta's text extends the message's text and reasoning, and every fragment
/// of it is filed under its index: after `push`, the calls
/// are filed under exactly the indices that were filed before or that a
/// fragment of the delta carries, each index once, and each call's name and
/// arguments are what it had followed by the pieces that the delta's fragments
/// with its index bring, in order, with the id of the last such fragment that
/// has one.
pub proof fn law_push_files_every_fragment(a: AggregatorView, d: StreamDeltaView)
    requires
        sorted_calls(a.calls),
    ensures
        push_delta(a, d).content == a.content + opt_text(d.content),
        d.reasoning_content is None ==> push_delta(a, d).reasoning == a.reasoning,
        d.reasoning_content is Some ==> push_delta(a, d).reasoning == Some(opt_text(a.reasoning) + d.reasoning_content->0),
        sorted_calls(push_delta(a, d).calls),
        forall|k: usize| #[trigger] has_index(push_delta(a, d).calls, k) <==> has_index(a.calls, k) || fragment_for(d.tool_calls, k),
        forall|k: usize| #[trigger] entry_at(push_delta(a, d).calls, k) == (BuildView {
            id: last_id(d.tool_calls, k, entry_at(a.calls, k).id),
            name: entry_at(a.calls, k).name + names_for(d.tool_calls, k),
            arguments: entry_at(a.calls, k).arguments + arguments_for(d.tool_calls, k),
        }),
{
    lemma_apply_fragments(a.calls, d.tool_calls);
}

} // verus!
