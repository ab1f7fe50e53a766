//! Incremental SSE line parser for `stream=true` chat completions.
use vstd::prelude::*;
use crate::json::{JsonValue, json_get, json_parse, json_text, parse_json, to_json_text, str_eq};
use crate::text::{trim, occurs_at, trim_bounds, copy_chars, chars_of, matches_at, chars_eq, string_of, push_str};
use super::{LlmError, LlmErrorView, StreamDelta, StreamDeltaView, TokenUsage, ToolCallDelta, ToolCallDeltaView, event_view, opt_view};

verus! {

/// What `String::from_utf8_lossy` decodes from a byte sequence.
pub uninterp spec fn utf8_lossy(bytes: Seq<u8>) -> Seq<char>;

/// `String::from_utf8_lossy`, collected into characters; the contract names the
/// result `utf8_lossy` of the bytes, and, as std documents, bytes that are valid
/// UTF-8 give exactly the text they encode.
#[verifier::external_body]
pub(crate) fn lossy_chars(bytes: &[u8]) -> (r: Vec<char>)
    ensures
        r@ == utf8_lossy(bytes@),
        vstd::utf8::valid_utf8(bytes@) ==> r@ == vstd::utf8::decode_utf8(bytes@),
{
    String::from_utf8_lossy(bytes).chars().collect()
}

// ---------------------------------------------------------------------------
// Decoding one `data:` payload (a chat-completion chunk) from its JSON document.
// Missing and null optional fields are absent; a field of the wrong type, or a
// missing required field, makes the whole chunk invalid.

pub open spec fn dec_opt_string(v: Option<JsonValue>) -> Result<Option<Seq<char>>, ()> {
    match v {
        None => Ok(None),
        Some(JsonValue::Null) => Ok(None),
        Some(JsonValue::Str(s)) => Ok(Some(s@)),
        _ => Err(()),
    }
}

pub open spec fn dec_u64(v: Option<JsonValue>) -> Result<u64, ()> {
    match v {
        Some(JsonValue::Number(n)) => match n.as_u64 {
            Some(x) => Ok(x),
            None => Err(()),
        },
        _ => Err(()),
    }
}

pub open spec fn dec_usage(v: Option<JsonValue>) -> Result<Option<TokenUsage>, ()> {
    match v {
        None => Ok(None),
        Some(JsonValue::Null) => Ok(None),
        Some(o) => if o is Object {
            match (dec_u64(json_get(o, "prompt_tokens"@)), dec_u64(json_get(o, "completion_tokens"@))) {
                (Ok(p), Ok(c)) => Ok(Some(TokenUsage { prompt_tokens: p, completion_tokens: c })),
                _ => Err(()),
            }
        } else {
            Err(())
        },
    }
}

pub open spec fn dec_function(v: Option<JsonValue>) -> Result<(Option<Seq<char>>, Option<Seq<char>>), ()> {
    match v {
        None => Ok((None, None)),
        Some(JsonValue::Null) => Ok((None, None)),
        Some(o) => if o is Object {
            match (dec_opt_string(json_get(o, "name"@)), dec_opt_string(json_get(o, "arguments"@))) {
                (Ok(n), Ok(a)) => Ok((n, a)),
                _ => Err(()),
            }
        } else {
            Err(())
        },
    }
}

pub open spec fn dec_tool_call(v: JsonValue) -> Result<ToolCallDeltaView, ()> {
    if v is Object {
        match (dec_u64(json_get(v, "index"@)), dec_opt_string(json_get(v, "id"@)), dec_function(json_get(v, "function"@))) {
            (Ok(i), Ok(id), Ok(f)) => if i <= usize::MAX {
                Ok(ToolCallDeltaView { index: i as usize, id: id, name: f.0, arguments: f.1 })
            } else {
                Err(())
            },
            _ => Err(()),
        }
    } else {
        Err(())
    }
}

pub open spec fn dec_tool_call_list(s: Seq<JsonValue>) -> Result<Seq<ToolCallDeltaView>, ()>
    decreases s.len(),
{
    if s.len() == 0 {
        Ok(Seq::empty())
    } else {
        match (dec_tool_call_list(s.drop_last()), dec_tool_call(s.last())) {
            (Ok(a), Ok(t)) => Ok(a.push(t)),
            _ => Err(()),
        }
    }
}

pub open spec fn dec_tool_calls(v: Option<JsonValue>) -> Result<Seq<ToolCallDeltaView>, ()> {
    match v {
        None => Ok(Seq::empty()),
        Some(JsonValue::Null) => Ok(Seq::empty()),
        Some(JsonValue::Array(a)) => dec_tool_call_list(a@),
        _ => Err(()),
    }
}

/// One choice of a chunk: its delta's reasoning, content and tool calls, and its
/// finish reason.
pub struct ChoiceView {
    pub reasoning: Option<Seq<char>>,
    pub content: Option<Seq<char>>,
    pub tool_calls: Seq<ToolCallDeltaView>,
    pub finish_reason: Option<Seq<char>>,
}

pub open spec fn dec_choice(v: JsonValue) -> Result<ChoiceView, ()> {
    if v is Object {
        match json_get(v, "delta"@) {
            Some(d) => if d is Object {
                match (
                    dec_opt_string(json_get(d, "reasoning_content"@)),
                    dec_opt_string(json_get(d, "content"@)),
                    dec_tool_calls(json_get(d, "tool_calls"@)),
                    dec_opt_string(json_get(v, "finish_reason"@)),
                ) {
                    (Ok(r), Ok(c), Ok(t), Ok(f)) => Ok(
                        ChoiceView { reasoning: r, content: c, tool_calls: t, finish_reason: f },
                    ),
                    _ => Err(()),
                }
            } else {
                Err(())
            },
            None => Err(()),
        }
    } else {
        Err(())
    }
}

pub open spec fn dec_choice_list(s: Seq<JsonValue>) -> Result<Seq<ChoiceView>, ()>
    decreases s.len(),
{
    if s.len() == 0 {
        Ok(Seq::empty())
    } else {
        match (dec_choice_list(s.drop_last()), dec_choice(s.last())) {
            (Ok(a), Ok(c)) => Ok(a.push(c)),
            _ => Err(()),
        }
    }
}

pub open spec fn dec_choices(v: Option<JsonValue>) -> Result<Seq<ChoiceView>, ()> {
    match v {
        None => Ok(Seq::empty()),
        Some(JsonValue::Array(a)) => dec_choice_list(a@),
        _ => Err(()),
    }
}

pub struct ChunkView {
    pub usage: Option<TokenUsage>,
    pub choices: Seq<ChoiceView>,
    pub error: Option<JsonValue>,
}

/// A chat-completion chunk: `usage`, `choices` and `error` of an object.
pub open spec fn dec_chunk(v: JsonValue) -> Result<ChunkView, ()> {
    if v is Object {
        match (dec_usage(json_get(v, "usage"@)), dec_choices(json_get(v, "choices"@))) {
            (Ok(u), Ok(c)) => Ok(
                ChunkView {
                    usage: u,
                    choices: c,
                    error: match json_get(v, "error"@) {
                        Some(JsonValue::Null) => None,
                        e => e,
                    },
                },
            ),
            _ => Err(()),
        }
    } else {
        Err(())
    }
}

/// The error text of a payload that is JSON but not a chat-completion chunk.
pub open spec fn chunk_shape_error() -> Seq<char> {
    "chat chunk does not have the expected fields and types"@
}

// ---------------------------------------------------------------------------
// The line protocol.

/// The parser's flags: `done` once the stream ended or failed, `completed` once a
/// choice reported an accepted finish reason.
pub struct SseFlags {
    pub done: bool,
    pub completed: bool,
}

pub open spec fn finish_accepted(r: Seq<char>) -> bool {
    r == "stop"@ || r == "tool_calls"@ || r == "function_call"@
}

pub open spec fn usage_only(u: TokenUsage) -> StreamDeltaView {
    StreamDeltaView { usage: Some(u), content: None, reasoning_content: None, tool_calls: Seq::empty() }
}

pub open spec fn chunk_step(f: SseFlags, c: ChunkView) -> (SseFlags, Option<Result<StreamDeltaView, LlmErrorView>>) {
    if c.error is Some {
        (
            SseFlags { done: true, completed: f.completed },
            Some(Err(LlmErrorView::Stream(json_text(c.error->0)))),
        )
    } else if c.choices.len() == 0 {
        (f, match c.usage {
            Some(u) => Some(Ok(usage_only(u))),
            None => None,
        })
    } else {
        let ch = c.choices[0];
        match ch.finish_reason {
            Some(r) if !finish_accepted(r) => (
                SseFlags { done: true, completed: f.completed },
                Some(Err(LlmErrorView::Stream("response stopped: "@ + r))),
            ),
            _ => (
                SseFlags { done: f.done, completed: f.completed || ch.finish_reason is Some },
                Some(
                    Ok(
                        StreamDeltaView {
                            usage: c.usage,
                            content: ch.content,
                            reasoning_content: ch.reasoning,
                            tool_calls: ch.tool_calls,
                        },
                    ),
                ),
            ),
        }
    }
}

/// A chunk's delta carries what the chunk reported: every delta it yields has
/// the chunk's usage, and, when the chunk has choices, the first choice's
/// content, reasoning and tool calls; a chunk without error whose first choice
/// has no finish reason, or an accepted one, always yields its delta; and a
/// chunk without error or choices yields something exactly when it reports usage.
/// The stream ends on an error or a refused finish reason, and counts as
/// completed once a choice reports an accepted one.
pub proof fn law_delta_carries_chunk(f: SseFlags, c: ChunkView)
    ensures
        chunk_step(f, c).1 matches Some(Ok(d)) ==> {
            &&& d.usage == c.usage
            &&& c.choices.len() > 0 ==> {
                &&& d.content == c.choices[0].content
                &&& d.reasoning_content == c.choices[0].reasoning
                &&& d.tool_calls == c.choices[0].tool_calls
            }
        },
        c.error is None && c.choices.len() > 0 && (c.choices[0].finish_reason is None || finish_accepted(
            c.choices[0].finish_reason->0,
        )) ==> chunk_step(f, c).1 matches Some(Ok(_)),
        c.error is None && c.choices.len() == 0 ==> (chunk_step(f, c).1 is Some <==> c.usage is Some),
        chunk_step(f, c).0.done == (f.done || c.error is Some || (c.choices.len() > 0 && c.choices[0].finish_reason is Some
            && !finish_accepted(c.choices[0].finish_reason->0))),
        chunk_step(f, c).0.completed == (f.completed || (c.error is None && c.choices.len() > 0
            && c.choices[0].finish_reason is Some && finish_accepted(c.choices[0].finish_reason->0))),
{
}

/// What one raw line (newline included, if any) does to the flags, and the event
/// it yields. Blank lines, comments (`:`) and fields other than `data:` yield
/// nothing; `data: [DONE]` ends the stream; anything after the end is ignored.
pub open spec fn line_step(f: SseFlags, raw: Seq<u8>) -> (SseFlags, Option<Result<StreamDeltaView, LlmErrorView>>) {
    let line = trim(utf8_lossy(raw));
    if f.done {
        (f, None)
    } else if line.len() == 0 || line[0] == ':' || !occurs_at(line, "data:"@, 0) {
        (f, None)
    } else {
        let payload = trim(line.skip("data:"@.len() as int));
        if payload == "[DONE]"@ {
            (SseFlags { done: true, completed: f.completed }, None)
        } else {
            match json_parse(payload) {
                Err(e) => (SseFlags { done: true, completed: f.completed }, Some(Err(LlmErrorView::Sse(e)))),
                Ok(v) => match dec_chunk(v) {
                    Err(_) => (
                        SseFlags { done: true, completed: f.completed },
                        Some(Err(LlmErrorView::Sse(chunk_shape_error()))),
                    ),
                    Ok(c) => chunk_step(f, c),
                },
            }
        }
    }
}

/// A `data:` line whose payload is a chat-completion chunk does exactly what the
/// chunk does, until the stream has ended.
pub proof fn law_data_line_is_its_chunk(f: SseFlags, raw: Seq<u8>, v: JsonValue, c: ChunkView)
    requires
        !f.done,
        occurs_at(trim(utf8_lossy(raw)), "data:"@, 0),
        trim(trim(utf8_lossy(raw)).skip(5)) != "[DONE]"@,
        json_parse(trim(trim(utf8_lossy(raw)).skip(5))) == Ok::<JsonValue, Seq<char>>(v),
        dec_chunk(v) == Ok::<ChunkView, ()>(c),
    ensures
        line_step(f, raw) == chunk_step(f, c),
{
    let line = trim(utf8_lossy(raw));
    reveal_strlit("data:");
    assert("data:"@.len() == 5);
    assert(line.subrange(0, 5)[0] == line[0]);
    assert(line[0] == 'd');
}

/// Index of the first newline byte, or the length when there is none.
pub open spec fn newline_pos(buf: Seq<u8>) -> nat
    decreases buf.len(),
{
    if buf.len() == 0 {
        0
    } else if buf[0] == 10u8 {
        0
    } else {
        1 + newline_pos(buf.drop_first())
    }
}

pub proof fn lemma_newline_pos(buf: Seq<u8>, k: int)
    requires
        0 <= k <= buf.len(),
        forall|j: int| 0 <= j < k ==> buf[j] != 10u8,
        k < buf.len() ==> buf[k] == 10u8,
    ensures
        newline_pos(buf) == k,
    decreases buf.len(),
{
    if k > 0 {
        assert(buf[0] != 10u8);
        assert forall|j: int| 0 <= j < k - 1 implies buf.drop_first()[j] != 10u8 by {
            assert(buf.drop_first()[j] == buf[j + 1]);
        }
        if k < buf.len() {
            assert(buf.drop_first()[k - 1] == buf[k]);
        }
        lemma_newline_pos(buf.drop_first(), k - 1);
    }
}

pub open spec fn opt_seq<T>(o: Option<T>) -> Seq<T> {
    match o {
        Some(x) => seq![x],
        None => Seq::empty(),
    }
}

/// Processes every complete line of `buf`: the final flags, the unfinished tail,
/// and the events in order.
pub open spec fn drain(f: SseFlags, buf: Seq<u8>) -> (SseFlags, Seq<u8>, Seq<Result<StreamDeltaView, LlmErrorView>>)
    decreases buf.len(),
{
    let k = newline_pos(buf) as int;
    if k >= buf.len() {
        (f, buf, Seq::empty())
    } else {
        let (f1, e) = line_step(f, buf.take(k + 1));
        let (f2, rest, es) = drain(f1, buf.skip(k + 1));
        (f2, rest, opt_seq(e) + es)
    }
}

proof fn lemma_newline_props(buf: Seq<u8>)
    ensures
        newline_pos(buf) <= buf.len(),
        forall|j: int| 0 <= j < newline_pos(buf) ==> buf[j] != 10u8,
        newline_pos(buf) < buf.len() ==> buf[newline_pos(buf) as int] == 10u8,
    decreases buf.len(),
{
    if buf.len() > 0 && buf[0] != 10u8 {
        let t = buf.drop_first();
        lemma_newline_props(t);
        assert forall|j: int| 0 <= j < newline_pos(buf) implies buf[j] != 10u8 by {
            if j > 0 {
                assert(buf[j] == t[j - 1]);
            }
        }
        if newline_pos(buf) < buf.len() {
            assert(buf[newline_pos(buf) as int] == t[newline_pos(t) as int]);
        }
    }
}

/// Draining `x` and then what it left with `b` appended gives what draining
/// `x + b` at once gives.
proof fn lemma_drain_append(f: SseFlags, x: Seq<u8>, b: Seq<u8>)
    ensures
        ({
            let (f1, r1, e1) = drain(f, x);
            let (f2, r2, e2) = drain(f1, r1 + b);
            drain(f, x + b) == (f2, r2, e1 + e2)
        }),
    decreases x.len(),
{
    lemma_newline_props(x);
    let k = newline_pos(x) as int;
    if k >= x.len() {
        assert(Seq::<Result<StreamDeltaView, LlmErrorView>>::empty() + drain(f, x + b).2 =~= drain(f, x + b).2);
    } else {
        let xb = x + b;
        lemma_newline_pos(xb, k);
        assert(xb.take(k + 1) =~= x.take(k + 1));
        assert(xb.skip(k + 1) =~= x.skip(k + 1) + b);
        let (f1, e) = line_step(f, x.take(k + 1));
        lemma_drain_append(f1, x.skip(k + 1), b);
        let (g1, r1, e1) = drain(f1, x.skip(k + 1));
        let (g2, r2, e2) = drain(g1, r1 + b);
        assert(opt_seq(e) + (e1 + e2) =~= (opt_seq(e) + e1) + e2);
    }
}

/// Splitting the bytes between two calls of `feed` changes nothing: feeding `a`
/// and then `b` ends in the state that feeding `a + b` at once ends in, and the
/// two calls give, one after the other, the events that the single call gives.
pub proof fn law_feed_split(s: SseState, a: Seq<u8>, b: Seq<u8>)
    ensures
        ({
            let (f1, r1, e1) = drain(SseFlags { done: s.done, completed: s.completed }, s.buf + a);
            let (f2, r2, e2) = drain(f1, r1 + b);
            drain(SseFlags { done: s.done, completed: s.completed }, s.buf + (a + b)) == (f2, r2, e1 + e2)
        }),
{
    lemma_drain_append(SseFlags { done: s.done, completed: s.completed }, s.buf + a, b);
    assert(s.buf + (a + b) =~= (s.buf + a) + b);
}

/// The state of a parser: unconsumed bytes and flags.
pub struct SseState {
    pub buf: Seq<u8>,
    pub done: bool,
    pub completed: bool,
}

pub open spec fn events_view(v: Seq<Result<StreamDelta, LlmError>>) -> Seq<Result<StreamDeltaView, LlmErrorView>> {
    v.map_values(|e: Result<StreamDelta, LlmError>| event_view(e))
}

/// Incremental SSE line parser for `stream=true` chat completions.
/// Pure and byte-oriented so tests can feed it `&str` fixtures.
#[derive(Debug, Default)]
pub struct SseParser {
    buf: Vec<u8>,
    done: bool,
    completed: bool,
}

impl View for SseParser {
    type V = SseState;

    closed spec fn view(&self) -> SseState {
        SseState { buf: self.buf@, done: self.done, completed: self.completed }
    }
}

// Exec decoders, each matching its specification above.

pub(crate) fn decode_opt_string(v: Option<&JsonValue>) -> (r: Result<Option<String>, ()>)
    ensures
        match (r, dec_opt_string(match v { Some(x) => Some(*x), None => None })) {
            (Ok(a), Ok(b)) => opt_view(a) == b,
            (Err(_), Err(_)) => true,
            _ => false,
        },
{
    match v {
        None => Ok(None),
        Some(JsonValue::Null) => Ok(None),
        Some(JsonValue::Str(s)) => Ok(Some(s.clone())),
        _ => Err(()),
    }
}

fn decode_u64(v: Option<&JsonValue>) -> (r: Result<u64, ()>)
    ensures
        r == dec_u64(match v { Some(x) => Some(*x), None => None }),
{
    match v {
        Some(JsonValue::Number(n)) => match n.as_u64 {
            Some(x) => Ok(x),
            None => Err(()),
        },
        _ => Err(()),
    }
}

pub open spec fn deref_opt(v: Option<&JsonValue>) -> Option<JsonValue> {
    match v {
        Some(x) => Some(*x),
        None => None,
    }
}

fn decode_usage(v: Option<&JsonValue>) -> (r: Result<Option<TokenUsage>, ()>)
    ensures
        r == dec_usage(deref_opt(v)),
{
    match v {
        None => Ok(None),
        Some(JsonValue::Null) => Ok(None),
        Some(o) => match o {
            JsonValue::Object(_) => {
                let p = decode_u64(o.get("prompt_tokens"));
                let c = decode_u64(o.get("completion_tokens"));
                match (p, c) {
                    (Ok(p), Ok(c)) => Ok(Some(TokenUsage { prompt_tokens: p, completion_tokens: c })),
                    _ => Err(()),
                }
            },
            _ => Err(()),
        },
    }
}

fn decode_function(v: Option<&JsonValue>) -> (r: Result<(Option<String>, Option<String>), ()>)
    ensures
        match (r, dec_function(deref_opt(v))) {
            (Ok(a), Ok(b)) => opt_view(a.0) == b.0 && opt_view(a.1) == b.1,
            (Err(_), Err(_)) => true,
            _ => false,
        },
{
    match v {
        None => Ok((None, None)),
        Some(JsonValue::Null) => Ok((None, None)),
        Some(o) => match o {
            JsonValue::Object(_) => {
                let n = decode_opt_string(o.get("name"));
                let a = decode_opt_string(o.get("arguments"));
                match (n, a) {
                    (Ok(n), Ok(a)) => Ok((n, a)),
                    _ => Err(()),
                }
            },
            _ => Err(()),
        },
    }
}

fn decode_tool_call(v: &JsonValue) -> (r: Result<ToolCallDelta, ()>)
    ensures
        match (r, dec_tool_call(*v)) {
            (Ok(a), Ok(b)) => a@ == b,
            (Err(_), Err(_)) => true,
            _ => false,
        },
{
    match v {
        JsonValue::Object(_) => {
            let i = decode_u64(v.get("index"));
            let id = decode_opt_string(v.get("id"));
            let f = decode_function(v.get("function"));
            match (i, id, f) {
                (Ok(i), Ok(id), Ok(f)) => {
                    if i as u128 <= usize::MAX as u128 {
                        Ok(ToolCallDelta { index: i as usize, id: id, name: f.0, arguments: f.1 })
                    } else {
                        Err(())
                    }
                },
                _ => Err(()),
            }
        },
        _ => Err(()),
    }
}

pub open spec fn tc_views(v: Seq<ToolCallDelta>) -> Seq<ToolCallDeltaView> {
    v.map_values(|t: ToolCallDelta| t@)
}

pub(crate) fn decode_tool_calls(v: Option<&JsonValue>) -> (r: Result<Vec<ToolCallDelta>, ()>)
    ensures
        match (r, dec_tool_calls(deref_opt(v))) {
            (Ok(a), Ok(b)) => tc_views(a@) == b,
            (Err(_), Err(_)) => true,
            _ => false,
        },
{
    match v {
        None => Ok(Vec::new()),
        Some(JsonValue::Null) => Ok(Vec::new()),
        Some(JsonValue::Array(items)) => {
            let mut out: Vec<ToolCallDelta> = Vec::new();
            let mut i: usize = 0;
            while i < items.len()
                invariant
                    i <= items@.len(),
                    dec_tool_calls(deref_opt(v)) == dec_tool_call_list(items@),
                    dec_tool_call_list(items@.take(i as int)) is Ok,
                    tc_views(out@) == dec_tool_call_list(items@.take(i as int))->Ok_0,
                decreases items@.len() - i,
            {
                proof {
                    assert(items@.take(i as int + 1).drop_last() =~= items@.take(i as int));
                }
                match decode_tool_call(&items[i]) {
                    Ok(t) => {
                        out.push(t);
                        proof {
                            assert(tc_views(out@) =~= dec_tool_call_list(items@.take(i as int + 1))->Ok_0);
                        }
                    },
                    Err(_) => {
                        proof {
                            assert(dec_tool_call_list(items@.take(i as int + 1)) is Err);
                            lemma_list_err_persists(items@, i as int + 1);
                        }
                        return Err(());
                    },
                }
                i = i + 1;
            }
            proof {
                assert(items@.take(items@.len() as int) =~= items@);
            }
            Ok(out)
        },
        _ => Err(()),
    }
}

proof fn lemma_list_err_persists(s: Seq<JsonValue>, k: int)
    requires
        0 <= k <= s.len(),
        dec_tool_call_list(s.take(k)) is Err,
    ensures
        dec_tool_call_list(s) is Err,
    decreases s.len() - k,
{
    if k < s.len() {
        assert(s.take(k + 1).drop_last() =~= s.take(k));
        lemma_list_err_persists(s, k + 1);
    } else {
        assert(s.take(k) =~= s);
    }
}

proof fn lemma_choice_err_persists(s: Seq<JsonValue>, k: int)
    requires
        0 <= k <= s.len(),
        dec_choice_list(s.take(k)) is Err,
    ensures
        dec_choice_list(s) is Err,
    decreases s.len() - k,
{
    if k < s.len() {
        assert(s.take(k + 1).drop_last() =~= s.take(k));
        lemma_choice_err_persists(s, k + 1);
    } else {
        assert(s.take(k) =~= s);
    }
}

/// One decoded choice.
struct Choice {
    reasoning: Option<String>,
    content: Option<String>,
    tool_calls: Vec<ToolCallDelta>,
    finish_reason: Option<String>,
}

spec fn choice_view(c: Choice) -> ChoiceView {
    ChoiceView {
        reasoning: opt_view(c.reasoning),
        content: opt_view(c.content),
        tool_calls: tc_views(c.tool_calls@),
        finish_reason: opt_view(c.finish_reason),
    }
}

fn decode_choice(v: &JsonValue) -> (r: Result<Choice, ()>)
    ensures
        match (r, dec_choice(*v)) {
            (Ok(a), Ok(b)) => choice_view(a) == b,
            (Err(_), Err(_)) => true,
            _ => false,
        },
{
    match v {
        JsonValue::Object(_) => match v.get("delta") {
            Some(d) => match d {
                JsonValue::Object(_) => {
                    let r = decode_opt_string(d.get("reasoning_content"));
                    let c = decode_opt_string(d.get("content"));
                    let t = decode_tool_calls(d.get("tool_calls"));
                    let f = decode_opt_string(v.get("finish_reason"));
                    match (r, c, t, f) {
                        (Ok(r), Ok(c), Ok(t), Ok(f)) => Ok(
                            Choice { reasoning: r, content: c, tool_calls: t, finish_reason: f },
                        ),
                        _ => Err(()),
                    }
                },
                _ => Err(()),
            },
            None => Err(()),
        },
        _ => Err(()),
    }
}

fn decode_choices(v: Option<&JsonValue>) -> (r: Result<Vec<Choice>, ()>)
    ensures
        match (r, dec_choices(deref_opt(v))) {
            (Ok(a), Ok(b)) => a@.map_values(|c: Choice| choice_view(c)) == b,
            (Err(_), Err(_)) => true,
            _ => false,
        },
{
    match v {
        None => Ok(Vec::new()),
        Some(JsonValue::Array(items)) => {
            let mut out: Vec<Choice> = Vec::new();
            let mut i: usize = 0;
            while i < items.len()
                invariant
                    i <= items@.len(),
                    dec_choices(deref_opt(v)) == dec_choice_list(items@),
                    dec_choice_list(items@.take(i as int)) is Ok,
                    out@.map_values(|c: Choice| choice_view(c)) == dec_choice_list(items@.take(i as int))->Ok_0,
                decreases items@.len() - i,
            {
                proof {
                    assert(items@.take(i as int + 1).drop_last() =~= items@.take(i as int));
                }
                match decode_choice(&items[i]) {
                    Ok(c) => {
                        out.push(c);
                        proof {
                            assert(out@.map_values(|c: Choice| choice_view(c)) =~= dec_choice_list(
                                items@.take(i as int + 1),
                            )->Ok_0);
                        }
                    },
                    Err(_) => {
                        proof {
                            lemma_choice_err_persists(items@, i as int + 1);
                        }
                        return Err(());
                    },
                }
                i = i + 1;
            }
            proof {
                assert(items@.take(items@.len() as int) =~= items@);
            }
            Ok(out)
        },
        _ => Err(()),
    }
}

fn error_member(v: &JsonValue) -> (r: Option<&JsonValue>)
    ensures
        deref_opt(r) == match json_get(*v, "error"@) {
            Some(JsonValue::Null) => None,
            e => e,
        },
{
    match v.get("error") {
        Some(JsonValue::Null) => None,
        e => e,
    }
}

impl SseParser {
    pub fn new() -> (r: Self)
        ensures
            r@.buf.len() == 0,
            !r@.done,
            !r@.completed,
    {
        SseParser { buf: Vec::new(), done: false, completed: false }
    }

    pub fn is_done(&self) -> (r: bool)
        ensures
            r == self@.done,
    {
        self.done
    }

    /// Appends `data` and parses every complete line, in order.
    pub fn feed(&mut self, data: &[u8]) -> (r: Vec<Result<StreamDelta, LlmError>>)
        ensures
            ({
                let (f, rest, events) = drain(
                    SseFlags { done: old(self)@.done, completed: old(self)@.completed },
                    old(self)@.buf + data@,
                );
                &&& final(self)@.done == f.done
                &&& final(self)@.completed == f.completed
                &&& final(self)@.buf == rest
                &&& events_view(r@) == events
            }),
    {
        let mut total: Vec<u8> = Vec::new();
        total.append(&mut self.buf);
        let mut j: usize = 0;
        while j < data.len()
            invariant
                j <= data@.len(),
                total@ == old(self)@.buf + data@.take(j as int),
            decreases data@.len() - j,
        {
            total.push(data[j]);
            proof {
                assert(data@.take(j as int + 1) =~= data@.take(j as int).push(data@[j as int]));
                assert(total@ =~= old(self)@.buf + data@.take(j as int + 1));
            }
            j = j + 1;
        }
        proof {
            assert(data@.take(data@.len() as int) =~= data@);
        }
        let ghost f0 = SseFlags { done: old(self)@.done, completed: old(self)@.completed };
        let mut out: Vec<Result<StreamDelta, LlmError>> = Vec::new();
        let mut start: usize = 0;
        let mut i: usize = 0;
        proof {
            assert(total@.skip(0) =~= total@);
        }
        while i < total.len()
            invariant
                start <= i <= total@.len(),
                forall|k: int| start <= k < i ==> total@[k] != 10u8,
                ({
                    let (fa, ra, ea) = drain(f0, total@);
                    let (fb, rb, eb) = drain(
                        SseFlags { done: self.done, completed: self.completed },
                        total@.skip(start as int),
                    );
                    fa == fb && ra == rb && ea == events_view(out@) + eb
                }),
            decreases total@.len() - i,
        {
            if total[i] == 10u8 {
                let ghost fc = SseFlags { done: self.done, completed: self.completed };
                let ghost tail = total@.skip(start as int);
                proof {
                    assert forall|k: int| 0 <= k < i - start implies tail[k] != 10u8 by {
                        assert(tail[k] == total@[k + start]);
                    }
                    assert(tail[i - start] == total@[i as int]);
                    lemma_newline_pos(tail, i - start);
                    assert(tail.take(i - start + 1) =~= total@.subrange(start as int, i + 1));
                    assert(tail.skip(i - start + 1) =~= total@.skip(i + 1));
                }
                let line = copy_range(&total, start, i + 1);
                let ev = self.parse_line(line.as_slice());
                let ghost before = out@;
                match ev {
                    Some(e) => {
                        out.push(e);
                    },
                    None => {},
                }
                proof {
                    let (f1, e1) = line_step(fc, total@.subrange(start as int, i + 1));
                    assert(events_view(out@) =~= events_view(before) + opt_seq(e1)) by {
                        if e1 is Some {
                            assert(events_view(out@) =~= events_view(before).push(e1->0));
                        }
                    }
                    assert(opt_seq(e1) + drain(f1, total@.skip(i + 1)).2 =~= drain(fc, tail).2);
                    assert(events_view(before) + drain(fc, tail).2 =~= events_view(out@) + drain(
                        f1,
                        total@.skip(i + 1),
                    ).2);
                }
                start = i + 1;
            }
            i = i + 1;
        }
        proof {
            let tail = total@.skip(start as int);
            assert forall|k: int| 0 <= k < tail.len() implies tail[k] != 10u8 by {
                assert(tail[k] == total@[k + start]);
            }
            lemma_newline_pos(tail, tail.len() as int);
            assert(events_view(out@) + Seq::<Result<StreamDeltaView, LlmErrorView>>::empty() =~= events_view(out@));
        }
        self.buf = copy_range(&total, start, total.len());
        proof {
            assert(self.buf@ =~= total@.skip(start as int));
        }
        out
    }

    /// Parses the unterminated tail as a final line and ends the stream. A stream
    /// that neither sent `[DONE]` nor reported an accepted finish reason ends with
    /// `UnexpectedEof`.
    pub fn finish(&mut self) -> (r: Vec<Result<StreamDelta, LlmError>>)
        ensures
            ({
                let (f, e) = line_step(
                    SseFlags { done: old(self)@.done, completed: old(self)@.completed },
                    old(self)@.buf,
                );
                &&& events_view(r@) == opt_seq(e) + if !f.done && !f.completed {
                    seq![Err(LlmErrorView::UnexpectedEof)]
                } else {
                    Seq::empty()
                }
                &&& final(self)@.done
                &&& final(self)@.completed == f.completed
                &&& final(self)@.buf.len() == 0
            }),
    {
        let mut rest: Vec<u8> = Vec::new();
        std::mem::swap(&mut rest, &mut self.buf);
        let mut out: Vec<Result<StreamDelta, LlmError>> = Vec::new();
        match self.parse_line(rest.as_slice()) {
            Some(e) => out.push(e),
            None => {},
        }
        let ghost first = out@;
        if !self.done && !self.completed {
            out.push(Err(LlmError::UnexpectedEof));
        }
        proof {
            assert(events_view(out@) =~= events_view(first) + if first.len() < out@.len() {
                seq![Err(LlmErrorView::UnexpectedEof)]
            } else {
                Seq::<Result<StreamDeltaView, LlmErrorView>>::empty()
            });
        }
        self.done = true;
        out
    }

    fn parse_line(&mut self, raw: &[u8]) -> (r: Option<Result<StreamDelta, LlmError>>)
        ensures
            ({
                let (f, e) = line_step(SseFlags { done: old(self).done, completed: old(self).completed }, raw@);
                &&& final(self).done == f.done
                &&& final(self).completed == f.completed
                &&& final(self).buf == old(self).buf
                &&& match (r, e) {
                    (Some(a), Some(b)) => event_view(a) == b,
                    (None, None) => true,
                    _ => false,
                }
            }),
    {
        if self.done {
            return None;
        }
        let decoded = lossy_chars(raw);
        let (s, t) = trim_bounds(decoded.as_slice());
        let line = copy_chars(decoded.as_slice(), s, t);
        let prefix = chars_of("data:");
        if line.len() == 0 || line[0] == ':' || !matches_at(line.as_slice(), prefix.as_slice(), 0) {
            return None;
        }
        let after = copy_chars(line.as_slice(), prefix.len(), line.len());
        proof {
            assert(after@ =~= line@.skip("data:"@.len() as int));
        }
        let (ps, pe) = trim_bounds(after.as_slice());
        let payload_chars = copy_chars(after.as_slice(), ps, pe);
        let done_marker = chars_of("[DONE]");
        if chars_eq(payload_chars.as_slice(), done_marker.as_slice()) {
            self.done = true;
            return None;
        }
        let payload = string_of(payload_chars.as_slice());
        let doc = match parse_json(payload.as_str()) {
            Ok(v) => v,
            Err(e) => {
                self.done = true;
                return Some(Err(LlmError::Sse(e)));
            },
        };
        if !(match &doc { JsonValue::Object(_) => true, _ => false }) {
            self.done = true;
            return Some(Err(LlmError::Sse("chat chunk does not have the expected fields and types".to_owned())));
        }
        let usage = decode_usage(doc.get("usage"));
        let choices = decode_choices(doc.get("choices"));
        let (usage, mut choices) = match (usage, choices) {
            (Ok(u), Ok(c)) => (u, c),
            _ => {
                self.done = true;
                return Some(Err(LlmError::Sse("chat chunk does not have the expected fields and types".to_owned())));
            },
        };
        if let Some(error) = error_member(&doc) {
            self.done = true;
            return Some(Err(LlmError::Stream(to_json_text(error))));
        }
        if choices.len() == 0 {
            let empty: Vec<ToolCallDelta> = Vec::new();
            proof {
                assert(empty@.map_values(|t: ToolCallDelta| t@) =~= Seq::<ToolCallDeltaView>::empty());
            }
            return match usage {
                Some(u) => Some(Ok(StreamDelta { usage: Some(u), content: None, reasoning_content: None, tool_calls: empty })),
                None => None,
            };
        }
        let ghost cviews = choices@.map_values(|c: Choice| choice_view(c));
        let choice = choices.swap_remove(0);
        proof {
            assert(choice_view(choice) == cviews[0]);
        }
        if let Some(reason) = &choice.finish_reason {
            let accepted = str_eq(reason.as_str(), "stop") || str_eq(reason.as_str(), "tool_calls")
                || str_eq(reason.as_str(), "function_call");
            if !accepted {
                self.done = true;
                let mut m = "response stopped: ".to_owned();
                push_str(&mut m, reason.as_str());
                return Some(Err(LlmError::Stream(m)));
            }
            self.completed = true;
        }
        let delta = StreamDelta {
            usage: usage,
            content: choice.content,
            reasoning_content: choice.reasoning,
            tool_calls: choice.tool_calls,
        };
        proof {
            assert(delta@.tool_calls == tc_views(delta.tool_calls@));
        }
        Some(Ok(delta))
    }
}

/// A copy of `v[from..to]`.
pub fn copy_range(v: &Vec<u8>, from: usize, to: usize) -> (r: Vec<u8>)
    requires
        from <= to <= v@.len(),
    ensures
        r@ == v@.subrange(from as int, to as int),
{
    let mut out: Vec<u8> = Vec::new();
    let mut i: usize = from;
    while i < to
        invariant
            from <= i <= to <= v@.len(),
            out@ == v@.subrange(from as int, i as int),
        decreases to - i,
    {
        out.push(v[i]);
        proof {
            assert(out@ =~= v@.subrange(from as int, i + 1));
        }
        i = i + 1;
    }
    out
}

} // verus!
