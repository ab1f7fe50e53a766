//! The plain SSE parser for chat completions: content and tool-call deltas
//! only. A malformed payload is reported and the stream goes on; only
//! `data: [DONE]` ends it.
use vstd::prelude::*;
use crate::json::{JsonValue, json_get, json_parse, parse_json};
use crate::text::{trim, occurs_at, trim_bounds, copy_chars, chars_of, matches_at, chars_eq, string_of};
use super::{LlmError, LlmErrorView, StreamDelta, StreamDeltaView, ToolCallDelta, ToolCallDeltaView, event_view};
use super::sse::{
    utf8_lossy, lossy_chars, dec_opt_string, dec_tool_calls, deref_opt, tc_views, decode_opt_string,
    decode_tool_calls, newline_pos, lemma_newline_pos, opt_seq, events_view, copy_range, chunk_shape_error,
};

verus! {

/// The first choice's content and tool calls, if the chunk has a choice. A chunk
/// must be an object whose choices each carry a `delta` object.
pub open spec fn dec_basic_choice(v: JsonValue) -> Result<(Option<Seq<char>>, Seq<ToolCallDeltaView>), ()> {
    if v is Object {
        match json_get(v, "delta"@) {
            Some(d) => if d is Object {
                match (dec_opt_string(json_get(d, "content"@)), dec_tool_calls(json_get(d, "tool_calls"@))) {
                    (Ok(c), Ok(t)) => Ok((c, t)),
                    _ => Err(()),
                }
            } else {
                Err(())
            },
            None => Err(()),
        }
    } else {
        Err(())
    }
}

pub open spec fn dec_basic_choice_list(s: Seq<JsonValue>) -> Result<Seq<(Option<Seq<char>>, Seq<ToolCallDeltaView>)>, ()>
    decreases s.len(),
{
    if s.len() == 0 {
        Ok(Seq::empty())
    } else {
        match (dec_basic_choice_list(s.drop_last()), dec_basic_choice(s.last())) {
            (Ok(a), Ok(c)) => Ok(a.push(c)),
            _ => Err(()),
        }
    }
}

pub open spec fn dec_basic_chunk(v: JsonValue) -> Result<Seq<(Option<Seq<char>>, Seq<ToolCallDeltaView>)>, ()> {
    if v is Object {
        match json_get(v, "choices"@) {
            None => Ok(Seq::empty()),
            Some(JsonValue::Array(a)) => dec_basic_choice_list(a@),
            _ => Err(()),
        }
    } else {
        Err(())
    }
}

/// What one raw line does: whether the stream is now done, and the event, if any.
pub open spec fn basic_line_step(done: bool, raw: Seq<u8>) -> (bool, Option<Result<StreamDeltaView, LlmErrorView>>) {
    let line = trim(utf8_lossy(raw));
    if done {
        (true, None)
    } else if line.len() == 0 || line[0] == ':' || !occurs_at(line, "data:"@, 0) {
        (false, None)
    } else {
        let payload = trim(line.skip("data:"@.len() as int));
        if payload == "[DONE]"@ {
            (true, None)
        } else {
            match json_parse(payload) {
                Err(e) => (false, Some(Err(LlmErrorView::Sse(e)))),
                Ok(v) => match dec_basic_chunk(v) {
                    Err(_) => (false, Some(Err(LlmErrorView::Sse(chunk_shape_error())))),
                    Ok(cs) => if cs.len() == 0 {
                        (false, None)
                    } else {
                        (
                            false,
                            Some(
                                Ok(
                                    StreamDeltaView {
                                        usage: None,
                                        content: cs[0].0,
                                        reasoning_content: None,
                                        tool_calls: cs[0].1,
                                    },
                                ),
                            ),
                        )
                    },
                },
            }
        }
    }
}

/// Processes every complete line of `buf`: whether the stream is done, the
/// unfinished tail, and the events in order.
pub open spec fn basic_drain(done: bool, buf: Seq<u8>) -> (bool, Seq<u8>, Seq<Result<StreamDeltaView, LlmErrorView>>)
    decreases buf.len(),
{
    let k = newline_pos(buf) as int;
    if k >= buf.len() {
        (done, buf, Seq::empty())
    } else {
        let (d1, e) = basic_line_step(done, buf.take(k + 1));
        let (d2, rest, es) = basic_drain(d1, buf.skip(k + 1));
        (d2, rest, opt_seq(e) + es)
    }
}

pub struct BasicState {
    pub buf: Seq<u8>,
    pub done: bool,
}

/// Incremental SSE line parser for `stream=true` chat completions.
#[derive(Debug, Default)]
pub struct SseParser {
    buf: Vec<u8>,
    done: bool,
}

impl View for SseParser {
    type V = BasicState;

    closed spec fn view(&self) -> BasicState {
        BasicState { buf: self.buf@, done: self.done }
    }
}

fn decode_basic_choice(v: &JsonValue) -> (r: Result<(Option<String>, Vec<ToolCallDelta>), ()>)
    ensures
        match (r, dec_basic_choice(*v)) {
            (Ok(a), Ok(b)) => super::opt_view(a.0) == b.0 && tc_views(a.1@) == b.1,
            (Err(_), Err(_)) => true,
            _ => false,
        },
{
    match v {
        JsonValue::Object(_) => match v.get("delta") {
            Some(d) => match d {
                JsonValue::Object(_) => {
                    let c = decode_opt_string(d.get("content"));
                    let t = decode_tool_calls(d.get("tool_calls"));
                    match (c, t) {
                        (Ok(c), Ok(t)) => Ok((c, t)),
                        _ => Err(()),
                    }
                },
                _ => Err(()),
            },
            None => Err(()),
        },
        _ => Err(()),
    }
}

proof fn lemma_basic_err_persists(s: Seq<JsonValue>, k: int)
    requires
        0 <= k <= s.len(),
        dec_basic_choice_list(s.take(k)) is Err,
    ensures
        dec_basic_choice_list(s) is Err,
    decreases s.len() - k,
{
    if k < s.len() {
        assert(s.take(k + 1).drop_last() =~= s.take(k));
        lemma_basic_err_persists(s, k + 1);
    } else {
        assert(s.take(k) =~= s);
    }
}

/// The first choice of a chunk, or the chunk's decoding failure.
fn decode_basic_chunk(v: &JsonValue) -> (r: Result<Option<(Option<String>, Vec<ToolCallDelta>)>, ()>)
    ensures
        match (r, dec_basic_chunk(*v)) {
            (Ok(Some(a)), Ok(b)) => b.len() > 0 && super::opt_view(a.0) == b[0].0 && tc_views(a.1@) == b[0].1,
            (Ok(None), Ok(b)) => b.len() == 0,
            (Err(_), Err(_)) => true,
            _ => false,
        },
{
    match v {
        JsonValue::Object(_) => match v.get("choices") {
            None => Ok(None),
            Some(JsonValue::Array(items)) => {
                let mut first: Option<(Option<String>, Vec<ToolCallDelta>)> = None;
                let mut i: usize = 0;
                while i < items.len()
                    invariant
                        i <= items@.len(),
                        dec_basic_chunk(*v) == dec_basic_choice_list(items@),
                        dec_basic_choice_list(items@.take(i as int)) is Ok,
                        dec_basic_choice_list(items@.take(i as int))->Ok_0.len() == i,
                        i == 0 <==> first is None,
                        first matches Some(a) ==> super::opt_view(a.0) == dec_basic_choice_list(
                            items@.take(i as int),
                        )->Ok_0[0].0 && tc_views(a.1@) == dec_basic_choice_list(items@.take(i as int))->Ok_0[0].1,
                    decreases items@.len() - i,
                {
                    proof {
                        assert(items@.take(i as int + 1).drop_last() =~= items@.take(i as int));
                    }
                    match decode_basic_choice(&items[i]) {
                        Ok(c) => {
                            if i == 0 {
                                first = Some(c);
                            }
                        },
                        Err(_) => {
                            proof {
                                lemma_basic_err_persists(items@, i as int + 1);
                            }
                            return Err(());
                        },
                    }
                    i = i + 1;
                }
                proof {
                    assert(items@.take(items@.len() as int) =~= items@);
                }
                Ok(first)
            },
            _ => Err(()),
        },
        _ => Err(()),
    }
}

impl SseParser {
    pub fn new() -> (r: Self)
        ensures
            r@.buf.len() == 0,
            !r@.done,
    {
        SseParser { buf: Vec::new(), done: false }
    }

    pub fn is_done(&self) -> (r: bool)
        ensures
            r == self@.done,
    {
        self.done
    }

    /// Appends `data` and parses every complete line, in order.
    pub fn feed(&mut self, data: &[u8]) -> (r: Vec<Result<StreamDelta, LlmError>>)
        ensures
            ({
                let (d, rest, events) = basic_drain(old(self)@.done, old(self)@.buf + data@);
                &&& final(self)@.done == d
                &&& final(self)@.buf == rest
                &&& events_view(r@) == events
            }),
    {
        let mut total: Vec<u8> = Vec::new();
        total.append(&mut self.buf);
        let mut j: usize = 0;
        while j < data.len()
            invariant
                j <= data@.len(),
                total@ == old(self)@.buf + data@.take(j as int),
            decreases data@.len() - j,
        {
            total.push(data[j]);
            proof {
                assert(data@.take(j as int + 1) =~= data@.take(j as int).push(data@[j as int]));
                assert(total@ =~= old(self)@.buf + data@.take(j as int + 1));
            }
            j = j + 1;
        }
        proof {
            assert(data@.take(data@.len() as int) =~= data@);
        }
        let ghost d0 = old(self)@.done;
        let mut out: Vec<Result<StreamDelta, LlmError>> = Vec::new();
        let mut start: usize = 0;
        let mut i: usize = 0;
        proof {
            assert(total@.skip(0) =~= total@);
        }
        while i < total.len()
            invariant
                start <= i <= total@.len(),
                forall|k: int| start <= k < i ==> total@[k] != 10u8,
                ({
                    let (da, ra, ea) = basic_drain(d0, total@);
                    let (db, rb, eb) = basic_drain(self.done, total@.skip(start as int));
                    da == db && ra == rb && ea == events_view(out@) + eb
                }),
            decreases total@.len() - i,
        {
            if total[i] == 10u8 {
                let ghost dc = self.done;
                let ghost tail = total@.skip(start as int);
                proof {
                    assert forall|k: int| 0 <= k < i - start implies tail[k] != 10u8 by {
                        assert(tail[k] == total@[k + start]);
                    }
                    assert(tail[i - start] == total@[i as int]);
                    lemma_newline_pos(tail, i - start);
                    assert(tail.take(i - start + 1) =~= total@.subrange(start as int, i + 1));
                    assert(tail.skip(i - start + 1) =~= total@.skip(i + 1));
                }
                let line = copy_range(&total, start, i + 1);
                let ev = self.parse_line(line.as_slice());
                let ghost before = out@;
                match ev {
                    Some(e) => {
                        out.push(e);
                    },
                    None => {},
                }
                proof {
                    let (d1, e1) = basic_line_step(dc, total@.subrange(start as int, i + 1));
                    assert(events_view(out@) =~= events_view(before) + opt_seq(e1)) by {
                        if e1 is Some {
                            assert(events_view(out@) =~= events_view(before).push(e1->0));
                        }
                    }
                    assert(opt_seq(e1) + basic_drain(d1, total@.skip(i + 1)).2 =~= basic_drain(dc, tail).2);
                    assert(events_view(before) + basic_drain(dc, tail).2 =~= events_view(out@) + basic_drain(
                        d1,
                        total@.skip(i + 1),
                    ).2);
                }
                start = i + 1;
            }
            i = i + 1;
        }
        proof {
            let tail = total@.skip(start as int);
            assert forall|k: int| 0 <= k < tail.len() implies tail[k] != 10u8 by {
                assert(tail[k] == total@[k + start]);
            }
            lemma_newline_pos(tail, tail.len() as int);
            assert(events_view(out@) + Seq::<Result<StreamDeltaView, LlmErrorView>>::empty() =~= events_view(out@));
        }
        self.buf = copy_range(&total, start, total.len());
        proof {
            assert(self.buf@ =~= total@.skip(start as int));
        }
        out
    }

    /// Parses the unterminated tail as a final line and ends the stream.
    pub fn finish(&mut self) -> (r: Vec<Result<StreamDelta, LlmError>>)
        ensures
            ({
                let (_, e) = basic_line_step(old(self)@.done, old(self)@.buf);
                &&& events_view(r@) == opt_seq(e)
                &&& final(self)@.done
                &&& final(self)@.buf.len() == 0
            }),
    {
        let mut rest: Vec<u8> = Vec::new();
        std::mem::swap(&mut rest, &mut self.buf);
        let mut out: Vec<Result<StreamDelta, LlmError>> = Vec::new();
        let ghost before = out@;
        match self.parse_line(rest.as_slice()) {
            Some(e) => {
                out.push(e);
                proof {
                    assert(events_view(out@) =~= seq![event_view(e)]);
                }
            },
            None => {
                proof {
                    assert(events_view(out@) =~= Seq::<Result<StreamDeltaView, LlmErrorView>>::empty());
                }
            },
        }
        self.done = true;
        out
    }

    fn parse_line(&mut self, raw: &[u8]) -> (r: Option<Result<StreamDelta, LlmError>>)
        ensures
            ({
                let (d, e) = basic_line_step(old(self).done, raw@);
                &&& final(self).done == d
                &&& final(self).buf == old(self).buf
                &&& match (r, e) {
                    (Some(a), Some(b)) => event_view(a) == b,
                    (None, None) => true,
                    _ => false,
                }
            }),
    {
        if self.done {
            return None;
        }
        let decoded = lossy_chars(raw);
        let (s, t) = trim_bounds(decoded.as_slice());
        let line = copy_chars(decoded.as_slice(), s, t);
        let prefix = chars_of("data:");
        if line.len() == 0 || line[0] == ':' || !matches_at(line.as_slice(), prefix.as_slice(), 0) {
            return None;
        }
        let after = copy_chars(line.as_slice(), prefix.len(), line.len());
        proof {
            assert(after@ =~= line@.skip("data:"@.len() as int));
        }
        let (ps, pe) = trim_bounds(after.as_slice());
        let payload_chars = copy_chars(after.as_slice(), ps, pe);
        let done_marker = chars_of("[DONE]");
        if chars_eq(payload_chars.as_slice(), done_marker.as_slice()) {
            self.done = true;
            return None;
        }
        let payload = string_of(payload_chars.as_slice());
        let doc = match parse_json(payload.as_str()) {
            Ok(v) => v,
            Err(e) => {
                return Some(Err(LlmError::Sse(e)));
            },
        };
        match decode_basic_chunk(&doc) {
            Err(_) => Some(Err(LlmError::Sse("chat chunk does not have the expected fields and types".to_owned()))),
            Ok(None) => None,
            Ok(Some((content, tool_calls))) => {
                let delta = StreamDelta { usage: None, content, reasoning_content: None, tool_calls };
                proof {
                    assert(delta@.tool_calls == tc_views(delta.tool_calls@));
                }
                Some(Ok(delta))
            },
        }
    }
}

} // verus!
