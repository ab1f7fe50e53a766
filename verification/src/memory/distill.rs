//! Distilling a session into a daily memory card: the transcript excerpt given
//! to the model, the cleanup of its reply, and the card's file name.
use vstd::prelude::*;
use crate::text::{
    trim, trim_start, trim_end, occurs_at, is_ascii_alnum, is_ascii_alphanumeric, chars_of, trimmed, matches_at, copy_chars, string_of,
    push_char, push_str, utf8_len, prefix_within, fitting_prefix, str_lines, lines_of, exceeds_bytes,
};
use crate::json::{JsonValue, json_parse, parse_json, get_str, str_member};

verus! {

// ---------------------------------------------------------------------------
// Reply cleanup.

pub open spec fn strip_prefix_spec(s: Seq<char>, p: Seq<char>) -> Option<Seq<char>> {
    if occurs_at(s, p, 0) {
        Some(s.skip(p.len() as int))
    } else {
        None
    }
}

pub open spec fn strip_suffix_spec(s: Seq<char>, p: Seq<char>) -> Option<Seq<char>> {
    if p.len() <= s.len() && s.skip(s.len() - p.len()) == p {
        Some(s.take(s.len() - p.len()))
    } else {
        None
    }
}

/// The reply without surrounding white space and without a Markdown code fence
/// around it: an opening ```` ```markdown ````, ```` ```md ```` or ```` ``` ```` and
/// a closing ```` ``` ````, each with the white space next to it.
pub open spec fn unfenced(text: Seq<char>) -> Seq<char> {
    let t = trim(text);
    let body = match strip_prefix_spec(t, "```markdown"@) {
        Some(b) => trim_start(b),
        None => match strip_prefix_spec(t, "```md"@) {
            Some(b) => trim_start(b),
            None => match strip_prefix_spec(t, "```"@) {
                Some(b) => trim_start(b),
                None => t,
            },
        },
    };
    match strip_suffix_spec(body, "```"@) {
        Some(b) => trim_end(b),
        None => body,
    }
}

fn strip_prefix_chars(s: &Vec<char>, p: &str) -> (r: Option<Vec<char>>)
    ensures
        match r {
            Some(v) => strip_prefix_spec(s@, p@) == Some(v@),
            None => strip_prefix_spec(s@, p@) is None,
        },
{
    let pc = chars_of(p);
    if matches_at(s.as_slice(), pc.as_slice(), 0) {
        let v = copy_chars(s.as_slice(), pc.len(), s.len());
        proof {
            assert(v@ =~= s@.skip(p@.len() as int));
        }
        Some(v)
    } else {
        None
    }
}

fn strip_suffix_chars(s: &Vec<char>, p: &str) -> (r: Option<Vec<char>>)
    ensures
        match r {
            Some(v) => strip_suffix_spec(s@, p@) == Some(v@),
            None => strip_suffix_spec(s@, p@) is None,
        },
{
    let pc = chars_of(p);
    if pc.len() <= s.len() && matches_at(s.as_slice(), pc.as_slice(), s.len() - pc.len()) {
        let v = copy_chars(s.as_slice(), 0, s.len() - pc.len());
        proof {
            assert(s@.subrange(s@.len() - p@.len(), s@.len() as int) =~= s@.skip(s@.len() - p@.len()));
            assert(v@ =~= s@.take(s@.len() - p@.len()));
        }
        Some(v)
    } else {
        proof {
            if p@.len() <= s@.len() {
                assert(s@.subrange(s@.len() - p@.len(), s@.len() as int) =~= s@.skip(s@.len() - p@.len()));
            }
        }
        None
    }
}

fn trim_start_chars(s: &Vec<char>) -> (r: Vec<char>)
    ensures
        r@ == trim_start(s@),
{
    let (a, _) = crate::text::trim_bounds(s.as_slice());
    copy_chars(s.as_slice(), a, s.len())
}

fn trim_end_chars(s: &Vec<char>) -> (r: Vec<char>)
    ensures
        r@ == trim_end(s@),
{
    let n = crate::text::trim_end_len(s.as_slice());
    copy_chars(s.as_slice(), 0, n)
}

/// The model's reply without a code fence around the document.
pub fn strip_code_fence(text: &str) -> (r: String)
    ensures
        r@ == unfenced(text@),
{
    let cs = chars_of(text);
    let t = trimmed(cs.as_slice());
    let body = match strip_prefix_chars(&t, "```markdown") {
        Some(b) => trim_start_chars(&b),
        None => match strip_prefix_chars(&t, "```md") {
            Some(b) => trim_start_chars(&b),
            None => match strip_prefix_chars(&t, "```") {
                Some(b) => trim_start_chars(&b),
                None => t,
            },
        },
    };
    let out = match strip_suffix_chars(&body, "```") {
        Some(b) => trim_end_chars(&b),
        None => body,
    };
    string_of(out.as_slice())
}

// ---------------------------------------------------------------------------
// Slugs.

/// What `char::to_lowercase` yields for a character.
pub uninterp spec fn char_lowercase(c: char) -> Seq<char>;

/// `char::to_lowercase`, collected; the contract names its result
/// `char_lowercase` of the character.
#[verifier::external_body]
fn lowercase_of(c: char) -> (r: Vec<char>)
    ensures
        r@ == char_lowercase(c),
{
    c.to_lowercase().collect()
}

/// Every character of a text lowercased, as `flat_map(char::to_lowercase)` gives.
pub open spec fn lowercased(s: Seq<char>) -> Seq<char>
    decreases s.len(),
{
    if s.len() == 0 {
        Seq::empty()
    } else {
        lowercased(s.drop_last()) + char_lowercase(s.last())
    }
}

/// Characters a slug keeps: ASCII letters and digits and CJK unified ideographs.
pub open spec fn slug_char(c: char) -> bool {
    is_ascii_alnum(c) || ('\u{4e00}' <= c && c <= '\u{9fff}')
}

/// The slug after a prefix: kept characters, and one `-` for each run of others
/// that follows a kept character. The flag says whether it ends with such a `-`
/// (or is still empty).
pub open spec fn slug_scan(s: Seq<char>) -> (Seq<char>, bool)
    decreases s.len(),
{
    if s.len() == 0 {
        (Seq::empty(), true)
    } else {
        let (slug, last_dash) = slug_scan(s.drop_last());
        let c = s.last();
        if slug_char(c) {
            (slug.push(c), false)
        } else if !last_dash {
            (slug.push('-'), true)
        } else {
            (slug, last_dash)
        }
    }
}

pub open spec fn trailing_dashes(s: Seq<char>) -> nat
    decreases s.len(),
{
    if s.len() > 0 && s.last() == '-' {
        1 + trailing_dashes(s.drop_last())
    } else {
        0
    }
}

/// The slug of a name: lowercased, kept characters joined by single dashes, no
/// dash at either end.
pub open spec fn slug_of(name: Seq<char>) -> Seq<char> {
    let slug = slug_scan(lowercased(name)).0;
    slug.take(slug.len() - trailing_dashes(slug))
}

pub fn slugify(name: &str) -> (r: String)
    ensures
        r@ == slug_of(name@),
{
    let cs = chars_of(name);
    let mut slug: Vec<char> = Vec::new();
    let mut last_dash = true;
    let ghost mut low: Seq<char> = Seq::empty();
    let mut i: usize = 0;
    proof {
        assert(cs@.take(0) =~= Seq::<char>::empty());
    }
    while i < cs.len()
        invariant
            i <= cs@.len(),
            cs@ == name@,
            low == lowercased(cs@.take(i as int)),
            slug_scan(low) == (slug@, last_dash),
        decreases cs@.len() - i,
    {
        proof {
            assert(cs@.take(i as int + 1).drop_last() =~= cs@.take(i as int));
        }
        let lower = lowercase_of(cs[i]);
        let mut j: usize = 0;
        let ghost base = low;
        proof {
            assert(base + lower@.take(0) =~= base);
        }
        while j < lower.len()
            invariant
                j <= lower@.len(),
                low == base + lower@.take(j as int),
                slug_scan(low) == (slug@, last_dash),
            decreases lower@.len() - j,
        {
            let c = lower[j];
            proof {
                let next = base + lower@.take(j as int + 1);
                assert(next.drop_last() =~= low);
                assert(next.last() == c);
                low = next;
            }
            if is_ascii_alphanumeric(c) || ('\u{4e00}' <= c && c <= '\u{9fff}') {
                slug.push(c);
                last_dash = false;
            } else if !last_dash {
                slug.push('-');
                last_dash = true;
            }
            j = j + 1;
        }
        proof {
            assert(lower@.take(lower@.len() as int) =~= lower@);
        }
        i = i + 1;
    }
    proof {
        assert(cs@.take(cs@.len() as int) =~= cs@);
    }
    let mut end = slug.len();
    proof {
        assert(slug@.take(end as int) =~= slug@);
    }
    while end > 0 && slug[end - 1] == '-'
        invariant
            end <= slug@.len(),
            trailing_dashes(slug@) == (slug@.len() - end) + trailing_dashes(slug@.take(end as int)),
        decreases end,
    {
        proof {
            assert(slug@.take(end as int).drop_last() =~= slug@.take(end - 1));
        }
        end = end - 1;
    }
    proof {
        assert(slug@.take(end as int).len() == 0 || slug@.take(end as int).last() != '-');
    }
    let kept = copy_chars(slug.as_slice(), 0, end);
    string_of(kept.as_slice())
}

} // verus!
