//! Compaction of a long conversation: the older messages become a summary
//! written by the model, the recent ones stay verbatim.
use vstd::prelude::*;
use crate::llm::{Message, ToolCall, display_text, content_text, plain_message};
use crate::text::{utf8_len, prefix_within, fitting_prefix, chars_of, string_of, copy_chars, push_str, trim, trimmed,
    seq_join, strings_view, join, byte_len, lemma_utf8_len_mono};
use crate::json::str_eq;

verus! {

/// Recent messages kept verbatim through compaction.
pub const KEEP_RECENT: usize = 4;

/// Bytes of transcript that one summary request carries at most.
pub const MAX_SUMMARY_INPUT_BYTES: usize = 20_000;

// ---------------------------------------------------------------------------
// Where the history is cut.

pub open spec fn is_tool(m: Message) -> bool {
    m.role@ == "tool"@
}

/// Moves a cut back past tool results, so that a tool call and all its results
/// stay on the same side.
pub open spec fn back_off(history: Seq<Message>, s: int) -> int
    decreases s,
{
    if s > 0 && s < history.len() && is_tool(history[s]) {
        back_off(history, s - 1)
    } else {
        s
    }
}

/// The first message kept verbatim, when there is anything to compact: all but
/// the last `keep` messages, at least two, moved back past tool results.
pub open spec fn split_of(history: Seq<Message>, keep: nat) -> Option<nat> {
    if history.len() < keep || history.len() - keep <= 1 {
        None
    } else {
        let s = back_off(history, history.len() - keep);
        if s <= 0 { None } else { Some(s as nat) }
    }
}

proof fn lemma_back_off(history: Seq<Message>, s: int)
    requires
        0 <= s,
    ensures
        0 <= back_off(history, s) <= s,
        back_off(history, s) > 0 && back_off(history, s) < history.len() ==> !is_tool(history[back_off(history, s)]),
        forall|j: int| back_off(history, s) < j <= s && j < history.len() ==> is_tool(#[trigger] history[j]),
    decreases s,
{
    if s > 0 && s < history.len() && is_tool(history[s]) {
        lemma_back_off(history, s - 1);
    }
}

/// Where to cut the history for compaction, or `None` when there is nothing
/// to compact.
pub fn compaction_split(history: &Vec<Message>, keep: usize) -> (r: Option<usize>)
    requires
        keep > 0 || history@.len() <= 1,
    ensures
        match r {
            Some(s) => split_of(history@, keep as nat) == Some(s as nat) && 0 < s < history@.len(),
            None => split_of(history@, keep as nat) is None,
        },
{
    let n = history.len();
    if n < keep || n - keep <= 1 {
        return None;
    }
    let mut split = n - keep;
    proof {
        lemma_back_off(history@, split as int);
    }
    while split > 0 && str_eq(history[split].role.as_str(), "tool")
        invariant
            split < n,
            n == history@.len(),
            keep > 0,
            back_off(history@, (n - keep) as int) == back_off(history@, split as int),
        decreases split,
    {
        split = split - 1;
    }
    if split == 0 {
        return None;
    }
    Some(split)
}

// ---------------------------------------------------------------------------
// The transcript of the old messages.

pub open spec fn call_line(c: ToolCall) -> Seq<char> {
    "tool call "@ + c.id@ + ": "@ + c.function.name@ + " "@ + c.function.arguments@ + "\n\n"@
}

pub open spec fn call_lines(calls: Seq<ToolCall>) -> Seq<char>
    decreases calls.len(),
{
    if calls.len() == 0 {
        Seq::empty()
    } else {
        call_lines(calls.drop_last()) + call_line(calls.last())
    }
}

/// A message in the transcript: its tool calls, then its role and displayed
/// text unless that is empty.
pub open spec fn message_entry(m: Message) -> Seq<char> {
    let calls = match m.tool_calls {
        Some(c) => call_lines(c@),
        None => Seq::empty(),
    };
    let content = display_text(content_text(m.content), m.images@);
    calls + if content.len() == 0 { Seq::empty() } else { m.role@ + ": "@ + content + "\n\n"@ }
}

pub open spec fn transcript_of(ms: Seq<Message>) -> Seq<char>
    decreases ms.len(),
{
    if ms.len() == 0 {
        Seq::empty()
    } else {
        transcript_of(ms.drop_last()) + message_entry(ms.last())
    }
}

/// The text that is summarized: every message before the cut.
pub fn compaction_transcript(history: &Vec<Message>, split: usize) -> (r: String)
    requires
        split <= history@.len(),
    ensures
        r@ == transcript_of(history@.take(split as int)),
{
    let mut out = String::new();
    let mut i: usize = 0;
    proof {
        assert(history@.take(0) =~= Seq::<Message>::empty());
    }
    while i < split
        invariant
            i <= split <= history@.len(),
            out@ == transcript_of(history@.take(i as int)),
        decreases split - i,
    {
        let m = &history[i];
        let ghost before = out@;
        match &m.tool_calls {
            Some(calls) => {
                let mut j: usize = 0;
                proof {
                    assert(calls@.take(0) =~= Seq::<ToolCall>::empty());
                    assert(before + call_lines(calls@.take(0)) =~= before);
                }
                while j < calls.len()
                    invariant
                        j <= calls@.len(),
                        out@ == before + call_lines(calls@.take(j as int)),
                    decreases calls@.len() - j,
                {
                    let c = &calls[j];
                    push_str(&mut out, "tool call ");
                    push_str(&mut out, c.id.as_str());
                    push_str(&mut out, ": ");
                    push_str(&mut out, c.function.name.as_str());
                    push_str(&mut out, " ");
                    push_str(&mut out, c.function.arguments.as_str());
                    push_str(&mut out, "\n\n");
                    proof {
                        assert(calls@.take(j as int + 1).drop_last() =~= calls@.take(j as int));
                        assert(calls@.take(j as int + 1).last() == calls@[j as int]);
                        assert(out@ =~= before + call_lines(calls@.take(j as int + 1)));
                    }
                    j = j + 1;
                }
                proof {
                    assert(calls@.take(calls@.len() as int) =~= calls@);
                }
            },
            None => {
                proof {
                    assert(out@ =~= before + Seq::<char>::empty());
                }
            },
        }
        let ghost mid = out@;
        let content = m.display_content();
        if !content.as_str().is_empty() {
            push_str(&mut out, m.role.as_str());
            push_str(&mut out, ": ");
            push_str(&mut out, content.as_str());
            push_str(&mut out, "\n\n");
            proof {
                assert(out@ =~= mid + (m.role@ + ": "@ + content@ + "\n\n"@));
            }
        } else {
            proof {
                assert(out@ =~= mid + Seq::<char>::empty());
            }
        }
        proof {
            assert(history@.take(i as int + 1).drop_last() =~= history@.take(i as int));
            assert(history@.take(i as int + 1).last() == history@[i as int]);
            assert(out@ =~= before + message_entry(history@[i as int]));
        }
        i = i + 1;
    }
    out
}

// ---------------------------------------------------------------------------
// Summarizing the transcript in batches.

pub open spec fn summary_instruction() -> Seq<char> {
    "把以下对话历史片段压缩成一份紧凑的摘要，保留：用户的偏好与约束、做过的决定、进行中的任务状态、后续要用到的事实。片段可能从一条消息中间开始或结束。直接输出摘要文本，不要解释。\n\n"@
}

pub open spec fn summary_prompt(batch: Seq<char>) -> Seq<char> {
    summary_instruction() + batch
}

/// Bytes of the serialized request that asks for a summary: a list holding one
/// user message with the given text.
pub uninterp spec fn user_request_bytes(prompt: Seq<char>) -> nat;

/// `serde_json::to_vec` of `[{"role": "user", "content": prompt}]`; the
/// contract names its length `user_request_bytes` of the prompt.
#[verifier::external_body]
fn summary_request_bytes(prompt: &str) -> (r: usize)
    ensures
        r as nat == user_request_bytes(prompt@),
{
    let mut message = serde_json::Map::new();
    message.insert("role".to_owned(), serde_json::Value::String("user".to_owned()));
    message.insert("content".to_owned(), serde_json::Value::String(prompt.to_owned()));
    let request = serde_json::Value::Array(vec![serde_json::Value::Object(message)]);
    serde_json::to_vec(&request).unwrap_or_default().len()
}

/// Whether a summary request for the batch, with room for the reply, fits the
/// budget (the sum saturates at `usize::MAX`).
pub open spec fn prompt_fits(batch: Seq<char>, budget: nat) -> bool {
    let used = user_request_bytes(summary_prompt(batch)) + 4096;
    (if used > usize::MAX { usize::MAX as nat } else { used }) <= budget
}

/// The characters of the longest prefix within `limit` bytes.
pub open spec fn fit_len(s: Seq<char>, limit: nat) -> nat {
    (choose|n: int| prefix_within(s, limit, n)) as nat
}

proof fn lemma_prefix_within_unique(s: Seq<char>, limit: nat, n: int)
    requires
        prefix_within(s, limit, n),
    ensures
        fit_len(s, limit) == n,
{
    let m = choose|m: int| prefix_within(s, limit, m);
    assert(prefix_within(s, limit, m));
    if m < n {
        lemma_utf8_len_mono(s, m + 1, n);
    } else if n < m {
        lemma_utf8_len_mono(s, n + 1, m);
    }
}

/// The batch size tried after `k` characters did not fit: the characters within
/// half of their bytes; the search gives up at an empty batch.
pub open spec fn pick_from(rest: Seq<char>, k: nat, budget: nat) -> Option<nat>
    decreases k,
{
    if k == 0 || k > rest.len() {
        None
    } else if prompt_fits(rest.take(k as int), budget) {
        Some(k)
    } else {
        let k2 = fit_len(rest, utf8_len(rest.take(k as int)) / 2);
        if k2 < k { pick_from(rest, k2, budget) } else { None }
    }
}

/// The next batch of the transcript: at most the first 20 000 bytes, halved
/// until its request fits the budget, cut at character boundaries.
pub open spec fn next_batch(rest: Seq<char>, budget: nat) -> Option<nat> {
    let start = if utf8_len(rest) < MAX_SUMMARY_INPUT_BYTES { utf8_len(rest) } else { MAX_SUMMARY_INPUT_BYTES as nat };
    pick_from(rest, fit_len(rest, start), budget)
}

/// What the compaction does next.
pub enum SummaryStep {
    /// Ask the model for a summary of this prompt.
    Ask(String),
    /// Every batch has been summarized.
    Finished,
    /// A batch cannot fit the budget: compaction does not happen.
    GiveUp,
}

/// Summarizes a transcript batch by batch, so that every byte is summarized
/// before any history is replaced.
pub struct Summarizer {
    rest: Vec<char>,
    budget: usize,
    pending: usize,
    summaries: Vec<String>,
    done: Ghost<Seq<char>>,
    transcript: Ghost<Seq<char>>,
}

impl Summarizer {
    pub closed spec fn wf(&self) -> bool {
        &&& self.done@ + self.rest@ == self.transcript@
        &&& self.pending <= self.rest@.len()
    }

    /// The text still to be summarized.
    pub closed spec fn rest_spec(&self) -> Seq<char> {
        self.rest@
    }

    /// The text summarized so far, from the start of the transcript.
    pub closed spec fn done_spec(&self) -> Seq<char> {
        self.done@
    }

    pub closed spec fn transcript_spec(&self) -> Seq<char> {
        self.transcript@
    }

    /// Characters of the batch whose summary is awaited; 0 when none is.
    pub closed spec fn pending_spec(&self) -> nat {
        self.pending as nat
    }

    pub closed spec fn budget_spec(&self) -> nat {
        self.budget as nat
    }

    pub closed spec fn summaries_spec(&self) -> Seq<Seq<char>> {
        strings_view(self.summaries@)
    }

    pub fn new(transcript: &str, budget: usize) -> (r: Self)
        ensures
            r.wf(),
            r.rest_spec() == transcript@,
            r.transcript_spec() == transcript@,
            r.done_spec() == Seq::<char>::empty(),
            r.pending_spec() == 0,
            r.budget_spec() == budget,
            r.summaries_spec() == Seq::<Seq<char>>::empty(),
    {
        let rest = chars_of(transcript);
        let r = Summarizer {
            rest,
            budget,
            pending: 0,
            summaries: Vec::new(),
            done: Ghost(Seq::empty()),
            transcript: Ghost(transcript@),
        };
        proof {
            assert(r.done@ + r.rest@ =~= r.transcript@);
            assert(strings_view(r.summaries@) =~= Seq::<Seq<char>>::empty());
        }
        r
    }

    /// Picks the next batch and asks for its summary, or reports that all is
    /// summarized, or that a batch cannot fit.
    pub fn next(&mut self) -> (r: SummaryStep)
        requires
            old(self).wf(),
        ensures
            final(self).wf(),
            final(self).rest_spec() == old(self).rest_spec(),
            final(self).done_spec() == old(self).done_spec(),
            final(self).transcript_spec() == old(self).transcript_spec(),
            final(self).budget_spec() == old(self).budget_spec(),
            final(self).summaries_spec() == old(self).summaries_spec(),
            old(self).rest_spec().len() == 0 ==> r is Finished && final(self).pending_spec() == 0,
            old(self).rest_spec().len() > 0 ==> match next_batch(old(self).rest_spec(), old(self).budget_spec()) {
                None => r is GiveUp && final(self).pending_spec() == 0,
                Some(k) => r matches SummaryStep::Ask(p) && p@ == summary_prompt(old(self).rest_spec().take(k as int))
                    && final(self).pending_spec() == k && k > 0,
            },
    {
        if self.rest.len() == 0 {
            self.pending = 0;
            return SummaryStep::Finished;
        }
        let ghost rest = self.rest@;
        let total = utf8_bytes(&self.rest);
        let start = if total < MAX_SUMMARY_INPUT_BYTES { total } else { MAX_SUMMARY_INPUT_BYTES };
        let mut k = fitting_prefix(self.rest.as_slice(), start);
        proof {
            lemma_prefix_within_unique(rest, start as nat, k as int);
        }
        loop
            invariant
                self.rest@ == rest,
                rest == old(self).rest@,
                self.done@ == old(self).done@,
                self.transcript@ == old(self).transcript@,
                self.budget == old(self).budget,
                self.summaries@ == old(self).summaries@,
                self.done@ + rest == self.transcript@,
                rest.len() > 0,
                k <= rest.len(),
                pick_from(rest, k as nat, self.budget as nat) == next_batch(rest, self.budget as nat),
            decreases k,
        {
            if k == 0 {
                self.pending = 0;
                return SummaryStep::GiveUp;
            }
            let batch = copy_chars(self.rest.as_slice(), 0, k);
            let mut prompt = String::new();
            push_str(&mut prompt, "把以下对话历史片段压缩成一份紧凑的摘要，保留：用户的偏好与约束、做过的决定、进行中的任务状态、后续要用到的事实。片段可能从一条消息中间开始或结束。直接输出摘要文本，不要解释。\n\n");
            let text = string_of(batch.as_slice());
            push_str(&mut prompt, text.as_str());
            let used = summary_request_bytes(prompt.as_str());
            let total_used = used.saturating_add(4096);
            if total_used <= self.budget {
                self.pending = k;
                return SummaryStep::Ask(prompt);
            }
            let bytes = utf8_bytes(&batch);
            let k2 = fitting_prefix(self.rest.as_slice(), bytes / 2);
            proof {
                lemma_prefix_within_unique(rest, (bytes / 2) as nat, k2 as int);
                // A non-empty batch has at least one byte, so half of it holds fewer characters.
                assert(rest.take(k as int).drop_last() =~= rest.take(k - 1));
                if k2 >= k {
                    lemma_utf8_len_mono(rest, k as int, k2 as int);
                    lemma_utf8_len_pos(rest.take(k as int));
                }
            }
            k = k2;
        }
    }

    /// Records the summary of the pending batch. A blank summary gives up the
    /// compaction and changes nothing.
    pub fn answered(&mut self, summary: &str) -> (r: bool)
        requires
            old(self).wf(),
            old(self).pending_spec() > 0,
        ensures
            final(self).wf(),
            final(self).transcript_spec() == old(self).transcript_spec(),
            final(self).budget_spec() == old(self).budget_spec(),
            r == (trim(summary@).len() > 0),
            !r ==> *final(self) == *old(self),
            r ==> {
                let k = old(self).pending_spec() as int;
                &&& final(self).done_spec() == old(self).done_spec() + old(self).rest_spec().take(k)
                &&& final(self).rest_spec() == old(self).rest_spec().skip(k)
                &&& final(self).summaries_spec() == old(self).summaries_spec().push(summary@)
                &&& final(self).pending_spec() == 0
            },
    {
        if trimmed(chars_of(summary).as_slice()).len() == 0 {
            return false;
        }
        let k = self.pending;
        let ghost old_done = self.done@;
        let ghost old_rest = self.rest@;
        let ghost prev = strings_view(self.summaries@);
        let remaining = copy_chars(self.rest.as_slice(), k, self.rest.len());
        self.rest = remaining;
        self.pending = 0;
        self.summaries.push(summary.to_owned());
        self.done = Ghost(old_done + old_rest.take(k as int));
        proof {
            assert(self.done@ + self.rest@ =~= old_done + old_rest);
            assert(strings_view(self.summaries@) =~= prev.push(summary@));
        }
        true
    }

    /// The summaries so far, joined by blank lines.
    pub fn summary(&self) -> (r: String)
        ensures
            r@ == seq_join(self.summaries_spec(), "\n\n"@),
    {
        join(&self.summaries, "\n\n")
    }

    pub fn has_summaries(&self) -> (r: bool)
        ensures
            r == (self.summaries_spec().len() > 0),
    {
        self.summaries.len() > 0
    }
}

/// A non-empty text takes at least one byte.
proof fn lemma_utf8_len_pos(s: Seq<char>)
    requires
        s.len() > 0,
    ensures
        utf8_len(s) >= 1,
{
}

/// The UTF-8 byte length of a character sequence.
fn utf8_bytes(s: &Vec<char>) -> (r: usize)
    ensures
        r == utf8_len(s@),
{
    let t = string_of(s.as_slice());
    byte_len(t.as_str())
}

/// Compaction is over once every batch is summarized: the summarized text is
/// then the whole transcript.
pub proof fn law_every_byte_is_summarized(s: Summarizer)
    requires
        s.wf(),
        s.rest_spec().len() == 0,
    ensures
        s.done_spec() == s.transcript_spec(),
{
    assert(s.done_spec() + s.rest_spec() =~= s.done_spec());
}

// ---------------------------------------------------------------------------
// The compacted history.

pub open spec fn has_images(m: Message) -> bool {
    m.images@.len() > 0
}

pub open spec fn with_images(ms: Seq<Message>) -> Seq<Message>
    decreases ms.len(),
{
    if ms.len() == 0 {
        ms
    } else {
        let rest = with_images(ms.drop_last());
        if has_images(ms.last()) { rest.push(ms.last()) } else { rest }
    }
}

pub open spec fn summary_heading() -> Seq<char> {
    "[早前对话摘要]\n"@
}

pub open spec fn acknowledgement() -> Seq<char> {
    "了解，我会基于这些背景继续。"@
}

/// The history after compaction: the summary as a user message and its
/// acknowledgement, the old messages that carry images (a text summary cannot
/// stand for pixels), then the messages after the cut, unchanged.
pub fn compacted(history: Vec<Message>, split: usize, summary: &str) -> (r: Vec<Message>)
    requires
        split <= history@.len(),
    ensures
        r@.len() == 2 + with_images(history@.take(split as int)).len() + history@.len() - split,
        plain_message(r@[0], "user"@, summary_heading() + summary@),
        plain_message(r@[1], "assistant"@, acknowledgement()),
        r@.skip(2) == with_images(history@.take(split as int)) + history@.skip(split as int),
{
    let ghost old_history = history@;
    let mut text = String::new();
    push_str(&mut text, "[早前对话摘要]\n");
    push_str(&mut text, summary);
    let mut out: Vec<Message> = Vec::new();
    out.push(Message::user(text.as_str()));
    out.push(Message::assistant("了解，我会基于这些背景继续。"));
    let mut rest = history;
    let n = rest.len();
    let mut i: usize = 0;
    proof {
        assert(old_history.take(0) =~= Seq::<Message>::empty());
        assert(out@.skip(2) =~= with_images(old_history.take(0)));
        assert(old_history.skip(0) =~= old_history);
    }
    while rest.len() > 0
        invariant
            i <= old_history.len(),
            n == old_history.len(),
            rest@ == old_history.skip(i as int),
            out@.len() >= 2,
            plain_message(out@[0], "user"@, summary_heading() + summary@),
            plain_message(out@[1], "assistant"@, acknowledgement()),
            i <= split ==> out@.skip(2) == with_images(old_history.take(i as int)),
            i > split ==> out@.skip(2) == with_images(old_history.take(split as int)) + old_history.subrange(split as int, i as int),
            split <= old_history.len(),
        decreases rest@.len(),
    {
        let m = rest.remove(0);
        proof {
            assert(old_history.skip(i as int).remove(0) =~= old_history.skip(i + 1));
            assert(m == old_history[i as int]);
            assert(old_history.take(i as int + 1).drop_last() =~= old_history.take(i as int));
            assert(old_history.take(i as int + 1).last() == m);
        }
        let ghost before = out@;
        if i < split {
            if m.images.len() > 0 {
                out.push(m);
                proof {
                    assert(out@.skip(2) =~= before.skip(2).push(old_history[i as int]));
                }
            } else {
                proof {
                    assert(out@.skip(2) =~= before.skip(2));
                }
            }
            proof {
                if i + 1 > split {
                } else if i + 1 == split {
                    assert(old_history.subrange(split as int, split as int) =~= Seq::<Message>::empty());
                }
            }
        } else {
            out.push(m);
            proof {
                assert(out@.skip(2) =~= before.skip(2).push(old_history[i as int]));
                if i == split {
                    assert(old_history.subrange(split as int, i + 1) =~= seq![old_history[i as int]]);
                    assert(with_images(old_history.take(i as int)) == with_images(old_history.take(split as int)));
                } else {
                    assert(old_history.subrange(split as int, i + 1) =~= old_history.subrange(split as int, i as int).push(
                        old_history[i as int],
                    ));
                }
            }
        }
        i = i + 1;
    }
    proof {
        assert(old_history.skip(i as int).len() == 0);
        assert(i == old_history.len());
        if i <= split {
            assert(split == old_history.len());
            assert(old_history.take(split as int) =~= old_history.take(i as int));
            assert(old_history.skip(split as int) =~= Seq::<Message>::empty());
        } else {
            assert(old_history.subrange(split as int, i as int) =~= old_history.skip(split as int));
        }
        assert(out@ =~= out@.take(2) + out@.skip(2));
    }
    out
}

} // verus!
