//! Durable work journal: the entries a session appends, and the state a
//! session is restored to from them.
use vstd::prelude::*;
use crate::llm::{ImageAttachment, Message, ToolCall};
use super::event::TaskView;
use super::plan::TodoItem;
use crate::text::push_str;

verus! {

#[derive(Debug)]
pub enum Trace {
    User(String),
    Text(String),
    ToolStart { id: String, name: String, summary: String, arguments: String },
    ToolEnd { id: String, output: String, is_error: bool, duration_ms: u64 },
    Todos(Vec<TodoItem>),
    Note(String),
}

/// One committed line of the journal.
#[derive(Debug)]
pub enum Entry {
    Trace(Trace),
    Context { messages: Vec<Message>, todos: Vec<TodoItem> },
    Tasks(Vec<TaskView>),
}

/// A restored session.
#[derive(Debug)]
pub struct State {
    pub messages: Vec<Message>,
    pub todos: Vec<TodoItem>,
    pub trace: Vec<Trace>,
    pub tasks: Vec<TaskView>,
}

/// The journal of one session, by the path it is kept at.
#[derive(Debug, Clone)]
pub struct Journal {
    pub path: String,
}

// ---------------------------------------------------------------------------
// The model of a message, with texts as character sequences.

pub struct MsgV {
    pub role: Seq<char>,
    pub content: Option<Seq<char>>,
    pub images: Seq<ImageAttachment>,
    pub reasoning: Option<Seq<char>>,
    pub tool_calls: Option<Seq<ToolCall>>,
    pub tool_call_id: Option<Seq<char>>,
    pub name: Option<Seq<char>>,
}

pub open spec fn opt_chars(o: Option<String>) -> Option<Seq<char>> {
    match o {
        Some(s) => Some(s@),
        None => None,
    }
}

pub open spec fn msg_view(m: Message) -> MsgV {
    MsgV {
        role: m.role@,
        content: opt_chars(m.content),
        images: m.images@,
        reasoning: opt_chars(m.reasoning_content),
        tool_calls: match m.tool_calls {
            Some(v) => Some(v@),
            None => None,
        },
        tool_call_id: opt_chars(m.tool_call_id),
        name: opt_chars(m.name),
    }
}

pub open spec fn msgs_view(v: Seq<Message>) -> Seq<MsgV> {
    v.map_values(|m: Message| msg_view(m))
}

/// A message with a role and a text and nothing else but, for tool results, the
/// call id.
pub open spec fn made(role: Seq<char>, content: Seq<char>, id: Option<Seq<char>>) -> MsgV {
    MsgV {
        role: role,
        content: Some(content),
        images: Seq::empty(),
        reasoning: None,
        tool_calls: None,
        tool_call_id: id,
        name: None,
    }
}

// ---------------------------------------------------------------------------
// Replay.

pub struct ReplayV {
    pub messages: Seq<MsgV>,
    pub todos: Seq<TodoItem>,
    pub trace: Seq<Trace>,
    pub tasks: Seq<TaskView>,
    /// Assistant text streamed since the last user input.
    pub partial: Seq<char>,
}

/// What one entry does to the replay. A user input first closes the pending
/// assistant text as a message; streamed text accumulates; a todo snapshot
/// replaces the todos; a context snapshot replaces messages and todos and drops
/// pending text; a task snapshot replaces the tasks.
pub open spec fn replay_step(s: ReplayV, e: Entry) -> ReplayV {
    match e {
        Entry::Trace(t) => {
            let s1 = match t {
                Trace::User(text) => ReplayV {
                    messages: (if s.partial.len() > 0 {
                        s.messages.push(made("assistant"@, s.partial, None))
                    } else {
                        s.messages
                    }).push(made("user"@, text@, None)),
                    partial: Seq::empty(),
                    ..s
                },
                Trace::Text(text) => ReplayV { partial: s.partial + text@, ..s },
                Trace::Todos(todos) => ReplayV { todos: todos@, ..s },
                _ => s,
            };
            ReplayV { trace: s1.trace.push(t), ..s1 }
        },
        Entry::Context { messages, todos } => ReplayV {
            messages: msgs_view(messages@),
            todos: todos@,
            partial: Seq::empty(),
            ..s
        },
        Entry::Tasks(tasks) => ReplayV { tasks: tasks@, ..s },
    }
}

pub open spec fn empty_replay() -> ReplayV {
    ReplayV { messages: Seq::empty(), todos: Seq::empty(), trace: Seq::empty(), tasks: Seq::empty(), partial: Seq::empty() }
}

pub open spec fn replay_all(entries: Seq<Entry>) -> ReplayV
    decreases entries.len(),
{
    if entries.len() == 0 {
        empty_replay()
    } else {
        replay_step(replay_all(entries.drop_last()), entries.last())
    }
}

pub open spec fn call_ids(calls: Seq<ToolCall>) -> Seq<Seq<char>> {
    calls.map_values(|c: ToolCall| c.id@)
}

/// The ids other than `id`, in order.
pub open spec fn without(ids: Seq<Seq<char>>, id: Seq<char>) -> Seq<Seq<char>>
    decreases ids.len(),
{
    if ids.len() == 0 {
        Seq::empty()
    } else if ids.last() == id {
        without(ids.drop_last(), id)
    } else {
        without(ids.drop_last(), id).push(ids.last())
    }
}

/// Tool calls that no later tool result answers, in order of the calls.
pub open spec fn pending_ids(msgs: Seq<MsgV>) -> Seq<Seq<char>>
    decreases msgs.len(),
{
    if msgs.len() == 0 {
        Seq::empty()
    } else {
        let m = msgs.last();
        let before = pending_ids(msgs.drop_last());
        let added = match m.tool_calls {
            Some(cs) => before + call_ids(cs),
            None => before,
        };
        match m.tool_call_id {
            Some(id) => without(added, id),
            None => added,
        }
    }
}

pub open spec fn interrupted_note() -> Seq<char> {
    "Execution interrupted; outcome unknown. Inspect state before retrying."@
}

/// One interrupted-result message per pending call.
pub open spec fn closing_results(ids: Seq<Seq<char>>) -> Seq<MsgV> {
    ids.map_values(|id: Seq<char>| made("tool"@, interrupted_note(), Some(id)))
}

/// The messages of a restored session: the replayed messages, an explicit
/// unknown-outcome result for each unanswered tool call, then any pending
/// assistant text.
pub open spec fn restored_messages(entries: Seq<Entry>) -> Seq<MsgV> {
    let r = replay_all(entries);
    r.messages + closing_results(pending_ids(r.messages)) + if r.partial.len() > 0 {
        seq![made("assistant"@, r.partial, None)]
    } else {
        Seq::empty()
    }
}

fn clone_todo(t: &TodoItem) -> (r: TodoItem)
    ensures
        r == *t,
{
    TodoItem { content: t.content.clone(), status: t.status }
}

fn clone_todos(v: &Vec<TodoItem>) -> (r: Vec<TodoItem>)
    ensures
        r@ == v@,
{
    let mut out: Vec<TodoItem> = Vec::new();
    let mut i: usize = 0;
    while i < v.len()
        invariant
            i <= v@.len(),
            out@ == v@.take(i as int),
        decreases v@.len() - i,
    {
        out.push(clone_todo(&v[i]));
        proof {
            assert(out@ =~= v@.take(i as int + 1));
        }
        i = i + 1;
    }
    proof {
        assert(v@.take(v@.len() as int) =~= v@);
    }
    out
}

fn made_msg(role: &str, content: &str) -> (m: Message)
    ensures
        msg_view(m) == made(role@, content@, None),
{
    Message {
        role: role.to_owned(),
        content: Some(content.to_owned()),
        images: Vec::new(),
        reasoning_content: None,
        tool_calls: None,
        tool_call_id: None,
        name: None,
    }
}

fn push_msg(v: &mut Vec<Message>, m: Message)
    ensures
        msgs_view(final(v)@) == msgs_view(old(v)@).push(msg_view(m)),
{
    let ghost mv = msg_view(m);
    v.push(m);
    proof {
        assert(msgs_view(v@) =~= msgs_view(old(v)@).push(mv));
    }
}

fn remove_id(ids: Vec<String>, id: &String) -> (r: Vec<String>)
    ensures
        r@.map_values(|s: String| s@) == without(ids@.map_values(|s: String| s@), id@),
{
    let ghost iv = ids@.map_values(|s: String| s@);
    let mut out: Vec<String> = Vec::new();
    let mut i: usize = 0;
    while i < ids.len()
        invariant
            i <= ids@.len(),
            iv == ids@.map_values(|s: String| s@),
            out@.map_values(|s: String| s@) == without(iv.take(i as int), id@),
        decreases ids@.len() - i,
    {
        proof {
            assert(iv.take(i as int + 1).drop_last() =~= iv.take(i as int));
            assert(iv.take(i as int + 1).last() == ids@[i as int]@);
        }
        if ids[i] != *id {
            let c = ids[i].clone();
            let ghost prev = out@;
            out.push(c);
            proof {
                assert(out@.map_values(|s: String| s@) =~= prev.map_values(|s: String| s@).push(c@));
            }
        }
        i = i + 1;
    }
    proof {
        assert(iv.take(ids@.len() as int) =~= iv);
    }
    out
}

/// The calls among `msgs` that no later tool result answers.
fn unanswered(msgs: &Vec<Message>) -> (r: Vec<String>)
    ensures
        r@.map_values(|s: String| s@) == pending_ids(msgs_view(msgs@)),
{
    let ghost mv = msgs_view(msgs@);
    let mut pending: Vec<String> = Vec::new();
    let mut i: usize = 0;
    while i < msgs.len()
        invariant
            i <= msgs@.len(),
            mv == msgs_view(msgs@),
            pending@.map_values(|s: String| s@) == pending_ids(mv.take(i as int)),
        decreases msgs@.len() - i,
    {
        proof {
            assert(mv.take(i as int + 1).drop_last() =~= mv.take(i as int));
            assert(mv.take(i as int + 1).last() == msg_view(msgs@[i as int]));
        }
        let m = &msgs[i];
        match &m.tool_calls {
            Some(calls) => {
                let ghost before = pending@.map_values(|s: String| s@);
                let mut k: usize = 0;
                while k < calls.len()
                    invariant
                        k <= calls@.len(),
                        pending@.map_values(|s: String| s@) == before + call_ids(calls@.take(k as int)),
                    decreases calls@.len() - k,
                {
                    let c = calls[k].id.clone();
                    let ghost prev = pending@;
                    pending.push(c);
                    proof {
                        assert(pending@.map_values(|s: String| s@) =~= prev.map_values(|s: String| s@).push(c@));
                        assert(call_ids(calls@.take(k as int + 1)) =~= call_ids(calls@.take(k as int)).push(calls@[k as int].id@));
                    }
                    k = k + 1;
                }
                proof {
                    assert(calls@.take(calls@.len() as int) =~= calls@);
                }
            },
            None => {},
        }
        match &m.tool_call_id {
            Some(id) => {
                pending = remove_id(pending, id);
            },
            None => {},
        }
        i = i + 1;
    }
    proof {
        assert(mv.take(msgs@.len() as int) =~= mv);
    }
    pending
}

impl Journal {
    pub fn new(path: &str) -> (r: Self)
        ensures
            r.path@ == path@,
    {
        Journal { path: path.to_owned() }
    }

    /// The entry that records one trace item.
    pub fn trace(&self, trace: Trace) -> (r: Entry)
        ensures
            r == Entry::Trace(trace),
    {
        Entry::Trace(trace)
    }

    /// The entry that snapshots the conversation: every message but system
    /// prompts, and the todos.
    pub fn context(&self, messages: Vec<Message>, todos: Vec<TodoItem>) -> (r: Entry)
        ensures
            r matches Entry::Context { messages: m, todos: t } && t@ == todos@ && msgs_view(m@) == msgs_view(
                messages@,
            ).filter(|v: MsgV| v.role != "system"@),
    {
        let ghost mv = msgs_view(messages@);
        let mut rest = messages;
        let mut kept: Vec<Message> = Vec::new();
        let total = rest.len();
        let mut i: usize = 0;
        proof {
            assert(mv.take(0).filter(|v: MsgV| v.role != "system"@) =~= Seq::<MsgV>::empty());
            assert(rest@ =~= messages@.skip(0));
        }
        while i < total
            invariant
                i <= total == messages@.len(),
                mv == msgs_view(messages@),
                rest@ == messages@.skip(i as int),
                msgs_view(kept@) == mv.take(i as int).filter(|v: MsgV| v.role != "system"@),
            decreases total - i,
        {
            proof {
                assert(rest@[0] == messages@[i as int]);
                assert(mv.take(i as int + 1).drop_last() =~= mv.take(i as int));
                reveal(Seq::filter);
            }
            let m = rest.remove(0);
            proof {
                assert(rest@ =~= messages@.skip(i as int + 1));
            }
            if !crate::json::str_eq(m.role.as_str(), "system") {
                push_msg(&mut kept, m);
            }
            i = i + 1;
        }
        proof {
            assert(mv.take(total as int) =~= mv);
        }
        Entry::Context { messages: kept, todos }
    }

    /// The entry that snapshots the background tasks.
    pub fn tasks(&self, tasks: Vec<TaskView>) -> (r: Entry)
        ensures
            r == Entry::Tasks(tasks),
    {
        Entry::Tasks(tasks)
    }
}

/// Length of the committed prefix of the journal's bytes: up to and including
/// the last newline. A crash can leave an incomplete tail behind it.
pub fn committed_len(bytes: &[u8]) -> (r: usize)
    ensures
        r <= bytes@.len(),
        r == 0 || bytes@[r - 1] == 10u8,
        forall|i: int| r <= i < bytes@.len() ==> bytes@[i] != 10u8,
{
    let mut n = bytes.len();
    while n > 0 && bytes[n - 1] != 10u8
        invariant
            n <= bytes@.len(),
            forall|i: int| n <= i < bytes@.len() ==> bytes@[i] != 10u8,
        decreases n,
    {
        n = n - 1;
    }
    n
}

/// The state a session restores to from its committed entries. An unfinished
/// tool invocation is never replayed: each call without a result gets an
/// explicit unknown-outcome result, so the next request stays valid.
pub fn restore(entries: Vec<Entry>) -> (r: State)
    ensures
        msgs_view(r.messages@) == restored_messages(entries@),
        r.todos@ == replay_all(entries@).todos,
        r.trace@ == replay_all(entries@).trace,
        r.tasks@ == replay_all(entries@).tasks,
{
    let ghost ev = entries@;
    let mut rest = entries;
    let total = rest.len();
    let mut messages: Vec<Message> = Vec::new();
    let mut todos: Vec<TodoItem> = Vec::new();
    let mut trace: Vec<Trace> = Vec::new();
    let mut tasks: Vec<TaskView> = Vec::new();
    let mut partial = String::new();
    let mut i: usize = 0;
    proof {
        assert(ev.take(0) =~= Seq::<Entry>::empty());
        assert(msgs_view(messages@) =~= Seq::<MsgV>::empty());
        assert(rest@ =~= ev.skip(0));
    }
    while i < total
        invariant
            i <= total == ev.len(),
            rest@ == ev.skip(i as int),
            replay_all(ev.take(i as int)) == (ReplayV {
                messages: msgs_view(messages@),
                todos: todos@,
                trace: trace@,
                tasks: tasks@,
                partial: partial@,
            }),
        decreases total - i,
    {
        proof {
            assert(rest@[0] == ev[i as int]);
            assert(ev.take(i as int + 1).drop_last() =~= ev.take(i as int));
        }
        let ghost before = ReplayV {
            messages: msgs_view(messages@),
            todos: todos@,
            trace: trace@,
            tasks: tasks@,
            partial: partial@,
        };
        let e = rest.remove(0);
        proof {
            assert(rest@ =~= ev.skip(i as int + 1));
            assert(ev.take(i as int + 1).last() == e);
            assert(replay_all(ev.take(i as int + 1)) == replay_step(before, e));
        }
        match e {
            Entry::Trace(t) => {
                match &t {
                    Trace::User(text) => {
                        if !partial.as_str().is_empty() {
                            push_msg(&mut messages, made_msg("assistant", partial.as_str()));
                            partial = String::new();
                        }
                        push_msg(&mut messages, made_msg("user", text.as_str()));
                        proof {
                            assert(partial@ == Seq::<char>::empty());
                        }
                    },
                    Trace::Text(text) => {
                        push_str(&mut partial, text.as_str());
                    },
                    Trace::Todos(items) => {
                        todos = clone_todos(items);
                    },
                    _ => {},
                }
                let ghost tv = t;
                trace.push(t);
                proof {
                    assert(trace@ == before.trace.push(tv));
                }
            },
            Entry::Context { messages: m, todos: t } => {
                let ghost mv = msgs_view(m@);
                messages = m;
                todos = t;
                partial = String::new();
            },
            Entry::Tasks(t) => {
                tasks = t;
            },
        }
        i = i + 1;
    }
    proof {
        assert(ev.take(total as int) =~= ev);
    }
    let ghost replayed = msgs_view(messages@);
    let pending = unanswered(&messages);
    let mut k: usize = 0;
    while k < pending.len()
        invariant
            k <= pending@.len(),
            pending@.map_values(|s: String| s@) == pending_ids(replayed),
            msgs_view(messages@) == replayed + closing_results(pending_ids(replayed).take(k as int)),
        decreases pending@.len() - k,
    {
        let m = Message {
            role: "tool".to_owned(),
            content: Some("Execution interrupted; outcome unknown. Inspect state before retrying.".to_owned()),
            images: Vec::new(),
            reasoning_content: None,
            tool_calls: None,
            tool_call_id: Some(pending[k].clone()),
            name: None,
        };
        proof {
            assert(pending_ids(replayed)[k as int] == pending@[k as int]@);
        }
        push_msg(&mut messages, m);
        proof {
            assert(closing_results(pending_ids(replayed).take(k as int + 1)) =~= closing_results(
                pending_ids(replayed).take(k as int),
            ).push(made("tool"@, interrupted_note(), Some(pending@[k as int]@))));
        }
        k = k + 1;
    }
    proof {
        assert(pending_ids(replayed).take(pending@.len() as int) =~= pending_ids(replayed));
    }
    if !partial.as_str().is_empty() {
        push_msg(&mut messages, made_msg("assistant", partial.as_str()));
    } else {
        proof {
            assert(msgs_view(messages@) + Seq::<MsgV>::empty() =~= msgs_view(messages@));
        }
    }
    State { messages, todos, trace, tasks }
}

/// Each id of `ids` removed in turn.
pub open spec fn without_each(s: Seq<Seq<char>>, ids: Seq<Seq<char>>) -> Seq<Seq<char>>
    decreases ids.len(),
{
    if ids.len() == 0 {
        s
    } else {
        without(without_each(s, ids.drop_last()), ids.last())
    }
}

proof fn lemma_without_contains(s: Seq<Seq<char>>, x: Seq<char>, y: Seq<char>)
    ensures
        without(s, x).contains(y) <==> (s.contains(y) && y != x),
    decreases s.len(),
{
    if s.len() > 0 {
        lemma_without_contains(s.drop_last(), x, y);
        let d = s.drop_last();
        if s.contains(y) && y != x {
            let k = choose|k: int| 0 <= k < s.len() && s[k] == y;
            if k < s.len() - 1 {
                assert(d[k] == y);
            }
        }
        if d.contains(y) {
            let k = choose|k: int| 0 <= k < d.len() && d[k] == y;
            assert(s[k] == y);
        }
        if without(s, x).contains(y) && !without(d, x).contains(y) {
            assert(s.last() != x);
            let w = without(d, x).push(s.last());
            let k = choose|k: int| 0 <= k < w.len() && w[k] == y;
            if k < w.len() - 1 {
                assert(without(d, x)[k] == y);
            }
        }
        if s.last() != x && without(d, x).contains(y) {
            let k = choose|k: int| 0 <= k < without(d, x).len() && without(d, x)[k] == y;
            assert(without(d, x).push(s.last())[k] == y);
        }
        if s.last() != x && y == s.last() {
            assert(without(d, x).push(s.last())[without(d, x).len() as int] == y);
        }
    }
}

proof fn lemma_without_each_contains(s: Seq<Seq<char>>, ids: Seq<Seq<char>>, y: Seq<char>)
    ensures
        without_each(s, ids).contains(y) <==> (s.contains(y) && !ids.contains(y)),
    decreases ids.len(),
{
    if ids.len() > 0 {
        lemma_without_each_contains(s, ids.drop_last(), y);
        lemma_without_contains(without_each(s, ids.drop_last()), ids.last(), y);
        let d = ids.drop_last();
        if d.contains(y) {
            let k = choose|k: int| 0 <= k < d.len() && d[k] == y;
            assert(ids[k] == y);
        }
        if ids.contains(y) && y != ids.last() {
            let k = choose|k: int| 0 <= k < ids.len() && ids[k] == y;
            assert(d[k] == y);
        }
        if y == ids.last() {
            assert(ids[ids.len() - 1] == y);
        }
    }
}

/// Appending unknown-outcome results answers exactly their ids.
proof fn lemma_pending_after_results(m: Seq<MsgV>, ids: Seq<Seq<char>>)
    ensures
        pending_ids(m + closing_results(ids)) == without_each(pending_ids(m), ids),
    decreases ids.len(),
{
    if ids.len() == 0 {
        assert(m + closing_results(ids) =~= m);
    } else {
        lemma_pending_after_results(m, ids.drop_last());
        let all = m + closing_results(ids);
        assert(all.drop_last() =~= m + closing_results(ids.drop_last()));
        assert(all.last() == made("tool"@, interrupted_note(), Some(ids.last())));
    }
}

/// Law: a restored session never leaves a tool call without a result, so the
/// next request replays no unfinished invocation.
pub proof fn law_restore_answers_every_call(entries: Seq<Entry>)
    ensures
        pending_ids(restored_messages(entries)).len() == 0,
{
    let r = replay_all(entries);
    let p = pending_ids(r.messages);
    let closed = r.messages + closing_results(p);
    lemma_pending_after_results(r.messages, p);
    assert forall|y: Seq<char>| !pending_ids(closed).contains(y) by {
        lemma_without_each_contains(p, p, y);
    }
    if pending_ids(closed).len() > 0 {
        assert(pending_ids(closed).contains(pending_ids(closed)[0]));
    }
    if r.partial.len() > 0 {
        let all = closed + seq![made("assistant"@, r.partial, None)];
        assert(all.drop_last() =~= closed);
        assert(restored_messages(entries) == all);
    } else {
        assert(restored_messages(entries) =~= closed);
    }
}

/// Law: a context snapshot is what a restore gives back when nothing follows
/// it: the snapshot's messages (`context` keeps every message but the system
/// prompt), an unknown-outcome result for each call they leave unanswered, and
/// the snapshot's todos; text streamed before the snapshot is dropped.
pub proof fn law_restore_after_context(entries: Seq<Entry>, e: Entry)
    requires
        e is Context,
    ensures
        ({
            let m = msgs_view(e->Context_messages@);
            &&& restored_messages(entries.push(e)) == m + closing_results(pending_ids(m))
            &&& replay_all(entries.push(e)).todos == e->Context_todos@
        }),
{
    assert(entries.push(e).drop_last() =~= entries);
    let m = msgs_view(e->Context_messages@);
    assert(m + closing_results(pending_ids(m)) + Seq::<MsgV>::empty() =~= m + closing_results(pending_ids(m)));
}

} // verus!
