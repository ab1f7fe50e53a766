//! Tool results and the tool catalog's rules.
use vstd::prelude::*;
use crate::text::{fitting_prefix, prefix_within, utf8_len, chars_of, copy_chars, string_of, push_str, lines_of, str_lines, seq_join, digits, push_decimal};
use crate::json::{JsonValue, json_parse, json_get, get_str, parse_json, str_eq, str_member};

pub mod catalog;
pub mod files;
pub mod search;
pub mod sections;
pub mod front;

verus! {

#[derive(Debug)]
pub struct ToolResult {
    pub content: String,
    pub is_error: bool,
    /// Unabridged display text when the model receives a bounded excerpt.
    pub display_content: Option<String>,
}

/// Bytes of shell output that the model receives.
pub const MODEL_LIMIT: usize = 8000;

pub open spec fn truncation_note() -> Seq<char> {
    "\n\u{2026}(truncated; full output available in transcript)"@
}

impl ToolResult {
    pub fn ok(content: &str) -> (r: Self)
        ensures
            r.content@ == content@,
            !r.is_error,
            r.display_content is None,
    {
        ToolResult { content: content.to_owned(), is_error: false, display_content: None }
    }

    /// Output beyond 8000 bytes is cut at a character boundary for the model and
    /// kept whole for display.
    pub fn shell_output(output: String, success: bool) -> (r: Self)
        ensures
            r.is_error == !success,
            r.display_content matches Some(d) && d@ == output@,
            if utf8_len(output@) <= MODEL_LIMIT {
                r.content@ == output@
            } else {
                exists|n: int| prefix_within(output@, MODEL_LIMIT as nat, n) && r.content@ == output@.take(n) + truncation_note()
            },
    {
        let cs = chars_of(output.as_str());
        let n = fitting_prefix(cs.as_slice(), MODEL_LIMIT);
        let content = if n < cs.len() {
            let mut c = string_of(copy_chars(cs.as_slice(), 0, n).as_slice());
            push_str(&mut c, "\n\u{2026}(truncated; full output available in transcript)");
            proof {
                assert(utf8_len(output@) > MODEL_LIMIT) by {
                    crate::text::lemma_utf8_len_mono(output@, n as int + 1, output@.len() as int);
                    assert(output@.take(output@.len() as int) =~= output@);
                }
            }
            c
        } else {
            proof {
                assert(output@.take(n as int) =~= output@);
            }
            output.clone()
        };
        ToolResult { content, is_error: !success, display_content: Some(output) }
    }

    pub fn err(content: &str) -> (r: Self)
        ensures
            r.content@ == content@,
            r.is_error,
            r.display_content is None,
    {
        ToolResult { content: content.to_owned(), is_error: true, display_content: None }
    }
}

pub open spec fn preview_text(content: Seq<char>) -> Seq<char> {
    let lines = str_lines(content);
    if lines.len() <= 5 {
        content
    } else {
        seq_join(seq![lines[0], lines[1], "  \u{2026}"@, lines[lines.len() - 2], lines[lines.len() - 1]], "\n"@)
    }
}

/// First/last lines of a tool result for the UI, folded past 5 lines.
pub fn result_preview(content: &str) -> (r: String)
    ensures
        r@ == preview_text(content@),
{
    let cs = chars_of(content);
    let lines = lines_of(cs.as_slice());
    let ghost lv = lines@.map_values(|l: Vec<char>| l@);
    if lines.len() <= 5 {
        return content.to_owned();
    }
    let n = lines.len();
    let mut out = string_of(lines[0].as_slice());
    push_str(&mut out, "\n");
    let second = string_of(lines[1].as_slice());
    push_str(&mut out, second.as_str());
    push_str(&mut out, "\n");
    push_str(&mut out, "  \u{2026}");
    push_str(&mut out, "\n");
    let third = string_of(lines[n - 2].as_slice());
    push_str(&mut out, third.as_str());
    push_str(&mut out, "\n");
    let last = string_of(lines[n - 1].as_slice());
    push_str(&mut out, last.as_str());
    proof {
        let parts = seq![lv[0], lv[1], "  \u{2026}"@, lv[lv.len() - 2], lv[lv.len() - 1]];
        let p1 = seq![lv[0]];
        let p2 = seq![lv[0], lv[1]];
        let p3 = seq![lv[0], lv[1], "  \u{2026}"@];
        let p4 = seq![lv[0], lv[1], "  \u{2026}"@, lv[lv.len() - 2]];
        assert(parts.drop_last() =~= p4);
        assert(p4.drop_last() =~= p3);
        assert(p3.drop_last() =~= p2);
        assert(p2.drop_last() =~= p1);
        assert(seq_join(p1, "\n"@) == lv[0]);
        assert(seq_join(p2, "\n"@) == lv[0] + "\n"@ + lv[1]);
        assert(seq_join(p3, "\n"@) == seq_join(p2, "\n"@) + "\n"@ + "  \u{2026}"@);
        assert(seq_join(p4, "\n"@) == seq_join(p3, "\n"@) + "\n"@ + lv[lv.len() - 2]);
        assert(out@ =~= seq_join(parts, "\n"@));
    }
    out
}


/// The arguments of a tool call as a document: what the text parses to, or
/// `null` where it does not parse.
pub open spec fn args_document(arguments: Seq<char>) -> JsonValue {
    match json_parse(arguments) {
        Ok(v) => v,
        Err(_) => JsonValue::Null,
    }
}

/// The string member `key`, or nothing.
pub open spec fn picked(args: JsonValue, key: Seq<char>) -> Seq<char> {
    match get_str(args, key) {
        Some(s) => s,
        None => Seq::empty(),
    }
}

/// The one argument a tool's call is shown by, before it is shortened.
pub open spec fn args_summary(name: Seq<char>, args: JsonValue) -> Seq<char> {
    if name == "bash"@ {
        picked(args, "command"@)
    } else if name == "remember"@ {
        picked(args, "text"@)
    } else if name == "skill"@ {
        picked(args, "name"@)
    } else if name == "task"@ {
        picked(args, "description"@)
    } else if name == "todo_write"@ {
        match json_get(args, "todos"@) {
            Some(JsonValue::Array(items)) => digits(items@.len()) + " items"@,
            _ => Seq::empty(),
        }
    } else {
        Seq::empty()
    }
}

/// At most 60 characters, with an ellipsis where more were cut.
pub open spec fn shortened(s: Seq<char>) -> Seq<char> {
    if s.len() > 60 {
        s.take(60) + "\u{2026}"@
    } else {
        s
    }
}

/// A one-line summary of a tool call's arguments for the UI.
pub fn summarize_args(name: &str, arguments: &str) -> (r: String)
    ensures
        r@ == shortened(args_summary(name@, args_document(arguments@))),
{
    let args = match parse_json(arguments) {
        Ok(v) => v,
        Err(_) => JsonValue::Null,
    };
    let key = if str_eq(name, "bash") {
        Some("command")
    } else if str_eq(name, "remember") {
        Some("text")
    } else if str_eq(name, "skill") {
        Some("name")
    } else if str_eq(name, "task") {
        Some("description")
    } else {
        None
    };
    let summary = match key {
        Some(k) => match str_member(&args, k) {
            Some(v) => v.to_owned(),
            None => String::new(),
        },
        None => {
            if str_eq(name, "todo_write") {
                match args.get("todos") {
                    Some(JsonValue::Array(items)) => {
                        let mut s = String::new();
                        push_decimal(&mut s, items.len() as u64);
                        push_str(&mut s, " items");
                        s
                    },
                    _ => String::new(),
                }
            } else {
                String::new()
            }
        },
    };
    proof {
        assert(summary@ == args_summary(name@, args_document(arguments@)));
    }
    let cs = chars_of(summary.as_str());
    if cs.len() > 60 {
        let mut out = string_of(copy_chars(cs.as_slice(), 0, 60).as_slice());
        push_str(&mut out, "\u{2026}");
        out
    } else {
        summary
    }
}

} // verus!
