//! The agent's private memory file: the excerpt injected into the system
//! prompt, and the file text after remembering an entry.
use vstd::prelude::*;
use crate::text::{
    trim, occurs_at, str_lines, seq_join, prefix_within, utf8_len, chars_of, fitting_prefix, copy_chars, string_of,
    lines_of, trimmed, chars_eq, matches_at, push_str,
};
use crate::markdown::join_lines;

verus! {

/// Bytes of memory that reach the system prompt.
pub const MAX_PROMPT_CHARS: usize = 4000;

/// Agent-private memory file. Injected into the system prompt every turn;
/// not part of the knowledge base.
#[derive(Debug)]
pub struct AgentMemory {
    pub path: String,
}

/// The memory text cut to the longest prefix that fits the prompt budget.
pub open spec fn excerpt(text: Seq<char>, n: int) -> bool {
    prefix_within(text, MAX_PROMPT_CHARS as nat, n)
}

/// `## date`, the heading of one day's entries.
pub open spec fn day_heading(today: Seq<char>) -> Seq<char> {
    "## "@ + today
}

/// Index of the last line that is the day's heading, trimmed.
pub open spec fn last_heading(lines: Seq<Seq<char>>, heading: Seq<char>) -> Option<int> {
    if exists|i: int| 0 <= i < lines.len() && trim(#[trigger] lines[i]) == heading {
        Some(
            choose|i: int|
                0 <= i < lines.len() && trim(#[trigger] lines[i]) == heading && forall|j: int|
                    i < j < lines.len() ==> trim(#[trigger] lines[j]) != heading,
        )
    } else {
        None
    }
}

/// Index of the first `## ` line after `pos`, or the number of lines.
pub open spec fn section_end(lines: Seq<Seq<char>>, pos: int) -> int {
    if exists|j: int| pos < j < lines.len() && occurs_at(#[trigger] lines[j], "## "@, 0) {
        choose|j: int|
            pos < j < lines.len() && occurs_at(#[trigger] lines[j], "## "@, 0) && forall|k: int|
                pos < k < j ==> !occurs_at(#[trigger] lines[k], "## "@, 0)
    } else {
        lines.len() as int
    }
}

/// The entry goes at the end of the day's last section; without one, a new
/// section (after a blank line) is started at the end of the file.
pub open spec fn remembered_lines(lines: Seq<Seq<char>>, heading: Seq<char>, entry: Seq<char>) -> Seq<Seq<char>> {
    match last_heading(lines, heading) {
        Some(p) => lines.insert(section_end(lines, p), entry),
        None => (if lines.len() > 0 { lines.push(Seq::empty()) } else { lines }).push(heading).push(Seq::empty()).push(entry),
    }
}

/// The file text after remembering `text` on `today`.
pub open spec fn remembered(existing: Seq<char>, today: Seq<char>, text: Seq<char>) -> Seq<char> {
    seq_join(remembered_lines(str_lines(existing), day_heading(today), "- "@ + trim(text)), "\n"@) + "\n"@
}

impl AgentMemory {
    pub fn load(path: &str) -> (r: Self)
        ensures
            r.path@ == path@,
    {
        AgentMemory { path: path.to_owned() }
    }

    /// What of the memory text reaches the prompt: all of it, or its longest
    /// prefix within 4000 bytes.
    pub fn content(text: &str) -> (r: String)
        ensures
            exists|n: int| excerpt(text@, n) && r@ == text@.take(n),
    {
        let cs = chars_of(text);
        let n = fitting_prefix(cs.as_slice(), MAX_PROMPT_CHARS);
        let kept = copy_chars(cs.as_slice(), 0, n);
        proof {
            assert(kept@ =~= text@.take(n as int));
            assert(excerpt(text@, n as int));
        }
        string_of(kept.as_slice())
    }

    /// The memory file's text after appending an entry under today's
    /// `## YYYY-MM-DD` section, creating the section when needed.
    pub fn remembered(existing: &str, today: &str, text: &str) -> (r: String)
        ensures
            r@ == remembered(existing@, today@, text@),
    {
        let mut heading = "## ".to_owned();
        push_str(&mut heading, today);
        let hc = chars_of(heading.as_str());
        let mut entry_s = "- ".to_owned();
        let t = trimmed(chars_of(text).as_slice());
        let ts = string_of(t.as_slice());
        push_str(&mut entry_s, ts.as_str());
        let entry = chars_of(entry_s.as_str());
        let mut lines = lines_of(chars_of(existing).as_slice());
        let ghost lv = lines@.map_values(|l: Vec<char>| l@);
        proof {
            assert(lv == str_lines(existing@));
        }
        // The last heading line of the day.
        let mut pos: Option<usize> = None;
        let mut i: usize = 0;
        while i < lines.len()
            invariant
                i <= lines@.len(),
                lv == lines@.map_values(|l: Vec<char>| l@),
                hc@ == day_heading(today@),
                match pos {
                    Some(p) => p < i && trim(lv[p as int]) == hc@ && forall|j: int| p < j < i ==> trim(#[trigger] lv[j]) != hc@,
                    None => forall|j: int| 0 <= j < i ==> trim(#[trigger] lv[j]) != hc@,
                },
            decreases lines@.len() - i,
        {
            let lt = trimmed(lines[i].as_slice());
            if chars_eq(lt.as_slice(), hc.as_slice()) {
                pos = Some(i);
            }
            proof {
                assert(lv[i as int] == lines@[i as int]@);
            }
            i = i + 1;
        }
        let ghost before = lines@;
        match pos {
            Some(p) => {
                proof {
                    let c = last_heading(lv, hc@).unwrap();
                    assert(trim(lv[p as int]) == hc@);
                    if c != p {
                        if c < p {
                            assert(trim(lv[p as int]) != hc@);
                        } else {
                            assert(trim(lv[c]) == hc@);
                        }
                    }
                }
                let marker = chars_of("## ");
                let mut at = p + 1;
                while at < lines.len() && !matches_at(lines[at].as_slice(), marker.as_slice(), 0)
                    invariant
                        p < at <= lines@.len(),
                        lv == lines@.map_values(|l: Vec<char>| l@),
                        marker@ == "## "@,
                        forall|k: int| p < k < at ==> !occurs_at(#[trigger] lv[k], "## "@, 0),
                    decreases lines@.len() - at,
                {
                    proof {
                        assert(lv[at as int] == lines@[at as int]@);
                    }
                    at = at + 1;
                }
                proof {
                    if at < lines@.len() {
                        assert(lv[at as int] == lines@[at as int]@);
                        assert(occurs_at(lv[at as int], "## "@, 0));
                    }
                    let c = section_end(lv, p as int);
                    if at < lines@.len() {
                        assert(exists|j: int| p < j < lv.len() && occurs_at(#[trigger] lv[j], "## "@, 0));
                        if c != at {
                            if c < at {
                                assert(!occurs_at(lv[c], "## "@, 0));
                            } else {
                                assert(occurs_at(lv[at as int], "## "@, 0));
                            }
                        }
                    } else {
                        assert(!exists|j: int| p < j < lv.len() && occurs_at(#[trigger] lv[j], "## "@, 0));
                    }
                }
                lines.insert(at, entry);
                proof {
                    assert(lines@.map_values(|l: Vec<char>| l@) =~= lv.insert(at as int, entry@));
                }
            },
            None => {
                proof {
                    assert(!exists|j: int| 0 <= j < lv.len() && trim(#[trigger] lv[j]) == hc@);
                }
                if lines.len() > 0 {
                    lines.push(Vec::new());
                }
                lines.push(hc);
                lines.push(Vec::new());
                lines.push(entry);
                proof {
                    let base = if lv.len() > 0 { lv.push(Seq::empty()) } else { lv };
                    assert(lines@.map_values(|l: Vec<char>| l@) =~= base.push(day_heading(today@)).push(Seq::empty()).push(
                        "- "@ + trim(text@),
                    ));
                }
            },
        }
        let n = lines.len();
        let mut out = join_lines(&lines, 0, n);
        proof {
            assert(lines@.map_values(|l: Vec<char>| l@).subrange(0, n as int) =~= lines@.map_values(|l: Vec<char>| l@));
        }
        push_str(&mut out, "\n");
        out
    }
}

} // verus!
