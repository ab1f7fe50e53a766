//! Markdown documents with an optional YAML frontmatter block, and the
//! `[[wikilinks]]` between memory files.
use vstd::prelude::*;
use crate::text::{
    trim, trim_end, str_lines, seq_join, char_pos, lemma_char_pos, find_first, parse_usize_spec, occurs_at,
    chars_of, lines_of, trimmed, trim_end_len, find, parse_usize, copy_chars, string_of, push_str, chars_eq,
    opt_index,
};

verus! {

// ---------------------------------------------------------------------------
// Frontmatter.

/// A document split at its frontmatter fences. `frontmatter` is the YAML text
/// between the fences, when the document opens with a closed `---` block.
#[derive(Debug)]
pub struct ParsedMarkdown {
    pub frontmatter: Option<String>,
    pub body: String,
    /// 1-based line in the original text where the body starts (after the closing `---`).
    pub body_start_line: usize,
}

pub open spec fn fence_line(l: Seq<char>) -> bool {
    trim_end(l) == "---"@
}

/// Index of the first closing fence among the lines after the opening one.
pub open spec fn closing_fence(rest: Seq<Seq<char>>) -> Option<int> {
    if exists|i: int| 0 <= i < rest.len() && fence_line(#[trigger] rest[i]) {
        Some(
            choose|i: int|
                0 <= i < rest.len() && fence_line(#[trigger] rest[i]) && forall|j: int|
                    0 <= j < i ==> !fence_line(#[trigger] rest[j]),
        )
    } else {
        None
    }
}

/// The frontmatter text, the body and the body's first line. A document that does
/// not open with `---`, or never closes the block, is all body. One blank line
/// after the closing fence is not part of the body.
pub open spec fn split_frontmatter(text: Seq<char>) -> (Option<Seq<char>>, Seq<char>, nat) {
    let lines = str_lines(text);
    if lines.len() == 0 || !fence_line(lines[0]) {
        (None, text, 1)
    } else {
        let rest = lines.skip(1);
        match closing_fence(rest) {
            None => (None, text, 1),
            Some(i) => {
                let yaml = seq_join(rest.take(i), "\n"@);
                let after = rest.skip(i + 1);
                if after.len() > 0 && trim(after[0]).len() == 0 {
                    (Some(yaml), seq_join(after.skip(1), "\n"@), (i + 4) as nat)
                } else {
                    (Some(yaml), seq_join(after, "\n"@), (i + 3) as nat)
                }
            },
        }
    }
}

pub open spec fn parsed_view(p: ParsedMarkdown) -> (Option<Seq<char>>, Seq<char>, nat) {
    (
        match p.frontmatter {
            Some(y) => Some(y@),
            None => None,
        },
        p.body@,
        p.body_start_line as nat,
    )
}

fn is_fence(line: &Vec<char>) -> (r: bool)
    ensures
        r == fence_line(line@),
{
    let n = trim_end_len(line.as_slice());
    let t = copy_chars(line.as_slice(), 0, n);
    chars_eq(t.as_slice(), chars_of("---").as_slice())
}

pub(crate) fn join_lines(lines: &Vec<Vec<char>>, from: usize, to: usize) -> (r: String)
    requires
        from <= to <= lines@.len(),
    ensures
        r@ == seq_join(lines@.map_values(|l: Vec<char>| l@).subrange(from as int, to as int), "\n"@),
{
    let ghost lv = lines@.map_values(|l: Vec<char>| l@);
    let mut out = String::new();
    let mut i: usize = from;
    proof {
        assert(lv.subrange(from as int, from as int) =~= Seq::<Seq<char>>::empty());
    }
    while i < to
        invariant
            from <= i <= to <= lines@.len(),
            lv == lines@.map_values(|l: Vec<char>| l@),
            out@ == seq_join(lv.subrange(from as int, i as int), "\n"@),
        decreases to - i,
    {
        proof {
            assert(lv.subrange(from as int, i + 1).drop_last() =~= lv.subrange(from as int, i as int));
            assert(lv.subrange(from as int, i + 1).last() == lines@[i as int]@);
        }
        if i > from {
            push_str(&mut out, "\n");
        }
        let piece = string_of(lines[i].as_slice());
        push_str(&mut out, piece.as_str());
        i = i + 1;
    }
    out
}

/// Splits a document at its frontmatter fences.
pub fn parse(text: &str) -> (r: ParsedMarkdown)
    ensures
        parsed_view(r) == split_frontmatter(text@),
        r.body_start_line >= 1,
{
    let cs = chars_of(text);
    let lines = lines_of(cs.as_slice());
    let ghost lv = lines@.map_values(|l: Vec<char>| l@);
    if lines.len() == 0 || !is_fence(&lines[0]) {
        return ParsedMarkdown { frontmatter: None, body: text.to_owned(), body_start_line: 1 };
    }
    let ghost rest = lv.skip(1);
    proof {
        crate::text::lemma_str_lines_bound(text@);
        assert(trim_end(lv[0]).len() == 3) by {
            reveal_strlit("---");
        }
        crate::text::lemma_trail_ws(lv[0]);
        assert(lv[0].len() >= trim_end(lv[0]).len());
        assert(cs@.len() == text@.len());
    }
    let total = cs.len();
    let mut i: usize = 1;
    while i < lines.len()
        invariant
            1 <= i <= lines@.len(),
            lv == lines@.map_values(|l: Vec<char>| l@),
            lv == str_lines(text@),
            rest == lv.skip(1),
            lv.len() + 2 <= text@.len() == total,
            fence_line(lv[0]),
            forall|j: int| 0 <= j < i - 1 ==> !fence_line(#[trigger] rest[j]),
        decreases lines@.len() - i,
    {
        if is_fence(&lines[i]) {
            proof {
                assert(rest[i - 1] == lv[i as int]);
                let k = i - 1;
                assert(fence_line(rest[k]));
                let c = closing_fence(rest).unwrap();
                assert(closing_fence(rest) is Some);
                if c != k {
                    if c < k {
                        assert(fence_line(rest[c]));
                    } else {
                        assert(!fence_line(rest[k]));
                    }
                }
                assert(rest.take(k) =~= lv.subrange(1, i as int));
            }
            let yaml = join_lines(&lines, 1, i);
            let mut blank = false;
            if i + 1 < lines.len() {
                let t = trimmed(lines[i + 1].as_slice());
                blank = t.len() == 0;
                proof {
                    assert(rest.skip(i as int)[0] == lv[i + 1]);
                }
            }
            proof {
                let after = rest.skip(i as int);
                assert(after =~= lv.subrange(i + 1, lv.len() as int));
                assert(blank == (after.len() > 0 && trim(after[0]).len() == 0));
            }
            if blank {
                let body = join_lines(&lines, i + 2, lines.len());
                proof {
                    assert(rest.skip(i as int).skip(1) =~= lv.subrange(i + 2, lv.len() as int));
                    assert(rest.skip(i as int)[0] == lv[i + 1]);
                }
                return ParsedMarkdown { frontmatter: Some(yaml), body, body_start_line: i + 3 };
            } else {
                let body = join_lines(&lines, i + 1, lines.len());
                proof {
                    assert(rest.skip(i as int) =~= lv.subrange(i + 1, lv.len() as int));
                    if rest.skip(i as int).len() > 0 {
                        assert(rest.skip(i as int)[0] == lv[i + 1]);
                    }
                }
                return ParsedMarkdown { frontmatter: Some(yaml), body, body_start_line: i + 2 };
            }
        }
        proof {
            assert(rest[i - 1] == lv[i as int]);
        }
        i = i + 1;
    }
    proof {
        assert(!exists|j: int| 0 <= j < rest.len() && fence_line(#[trigger] rest[j]));
    }
    ParsedMarkdown { frontmatter: None, body: text.to_owned(), body_start_line: 1 }
}

/// The YAML text with one leading `---\n` and every trailing newline removed.
pub open spec fn yaml_core(yaml: Seq<char>) -> Seq<char> {
    let y = if occurs_at(yaml, "---\n"@, 0) { yaml.skip(4) } else { yaml };
    y.take(y.len() - trailing_newlines(y))
}

pub open spec fn trailing_newlines(s: Seq<char>) -> nat
    decreases s.len(),
{
    if s.len() > 0 && s.last() == '\n' {
        1 + trailing_newlines(s.drop_last())
    } else {
        0
    }
}

/// `---`, the frontmatter, `---`, a blank line, then the body.
pub open spec fn rendered(yaml: Seq<char>, body: Seq<char>) -> Seq<char> {
    "---\n"@ + yaml_core(yaml) + "\n---\n\n"@ + body
}

/// A document from serialized frontmatter and a body.
pub fn render(frontmatter_yaml: &str, body: &str) -> (r: String)
    ensures
        r@ == rendered(frontmatter_yaml@, body@),
{
    let ys = chars_of(frontmatter_yaml);
    let fence = chars_of("---\n");
    let start: usize = if crate::text::matches_at(ys.as_slice(), fence.as_slice(), 0) { 4 } else { 0 };
    proof {
        reveal_strlit("---\n");
    }
    let y = copy_chars(ys.as_slice(), start, ys.len());
    proof {
        assert(y@ =~= (if occurs_at(frontmatter_yaml@, "---\n"@, 0) { frontmatter_yaml@.skip(4) } else { frontmatter_yaml@ }));
        assert(y@.take(y@.len() as int) =~= y@);
    }
    let mut end: usize = y.len();
    while end > 0 && y[end - 1] == '\n'
        invariant
            end <= y@.len(),
            trailing_newlines(y@) == (y@.len() - end) + trailing_newlines(y@.take(end as int)),
        decreases end,
    {
        proof {
            assert(y@.take(end as int).drop_last() =~= y@.take(end - 1));
        }
        end = end - 1;
    }
    proof {
        assert(y@.take(end as int).len() == 0 || y@.take(end as int).last() != '\n');
        assert(trailing_newlines(y@.take(end as int)) == 0);
    }
    let core = copy_chars(y.as_slice(), 0, end);
    let mut out = "---\n".to_owned();
    let core_s = string_of(core.as_slice());
    push_str(&mut out, core_s.as_str());
    push_str(&mut out, "\n---\n\n");
    push_str(&mut out, body);
    proof {
        assert(core@ =~= yaml_core(frontmatter_yaml@));
    }
    out
}

// ---------------------------------------------------------------------------
// Wikilinks.

/// A `[[path]]`, `[[path|label]]`, `[[path#L9]]` or `[[path#L9-L10]]` reference.
/// `target` is the literal workspace-relative path; no same-name resolution.
#[derive(Debug, Clone, PartialEq)]
pub struct WikiLink {
    pub target: String,
    pub label: Option<String>,
    pub line: Option<usize>,
    pub end_line: Option<usize>,
}

pub struct WikiLinkV {
    pub target: Seq<char>,
    pub label: Option<Seq<char>>,
    pub line: Option<usize>,
    pub end_line: Option<usize>,
}

impl View for WikiLink {
    type V = WikiLinkV;

    open spec fn view(&self) -> WikiLinkV {
        WikiLinkV {
            target: self.target@,
            label: match self.label {
                Some(l) => Some(l@),
                None => None,
            },
            line: self.line,
            end_line: self.end_line,
        }
    }
}

/// `L` followed by a number.
pub open spec fn line_number(part: Option<Seq<char>>) -> Option<usize> {
    match part {
        Some(p) => if p.len() > 0 && p[0] == 'L' {
            parse_usize_spec(p.skip(1))
        } else {
            None
        },
        None => None,
    }
}

/// `L9` or `L9-L10`: the parts before and after the first `-`.
pub open spec fn line_range(spec: Option<Seq<char>>) -> (Option<usize>, Option<usize>) {
    match spec {
        None => (None, None),
        Some(sp) => {
            let k = char_pos(sp, '-') as int;
            if k < sp.len() {
                (line_number(Some(sp.take(k))), line_number(Some(sp.skip(k + 1))))
            } else {
                (line_number(Some(sp)), None)
            }
        },
    }
}

/// `path|label` splits at the first `|`, `path#spec` at the first `#`; the target
/// and the label are trimmed.
pub open spec fn link_of(inner: Seq<char>) -> WikiLinkV {
    let kp = char_pos(inner, '|') as int;
    let path_part = if kp < inner.len() { inner.take(kp) } else { inner };
    let label = if kp < inner.len() { Some(trim(inner.skip(kp + 1))) } else { None };
    let kh = char_pos(path_part, '#') as int;
    let target = if kh < path_part.len() { path_part.take(kh) } else { path_part };
    let spec = if kh < path_part.len() { Some(path_part.skip(kh + 1)) } else { None };
    let (line, end_line) = line_range(spec);
    WikiLinkV { target: trim(target), label, line, end_line }
}

/// An inner text that is empty, spans lines or opens another link is no link.
pub open spec fn malformed(inner: Seq<char>) -> bool {
    inner.len() == 0 || find_first(inner, "[["@) is Some || inner.contains('\n')
}

/// The links of a text in order: each `[[` up to the next `]]`, scanning on after
/// the `]]`; an unclosed `[[` ends the scan.
pub open spec fn links_in(s: Seq<char>) -> Seq<WikiLinkV>
    decreases s.len(),
{
    match find_first(s, "[["@) {
        None => Seq::empty(),
        Some(open) => if 0 <= open && open + 2 <= s.len() {
            let after = s.skip(open + 2);
            match find_first(after, "]]"@) {
                None => Seq::empty(),
                Some(close) => if 0 <= close && close + 2 <= after.len() {
                    let inner = after.take(close);
                    let tail = links_in(after.skip(close + 2));
                    if malformed(inner) {
                        tail
                    } else {
                        seq![link_of(inner)] + tail
                    }
                } else {
                    Seq::empty()
                },
            }
        } else {
            Seq::empty()
        },
    }
}

pub open spec fn links_view(v: Seq<WikiLink>) -> Seq<WikiLinkV> {
    v.map_values(|l: WikiLink| l@)
}

fn char_index(s: &Vec<char>, c: char) -> (r: usize)
    ensures
        r == char_pos(s@, c),
{
    let mut i: usize = 0;
    while i < s.len() && s[i] != c
        invariant
            i <= s@.len(),
            forall|j: int| 0 <= j < i ==> s@[j] != c,
        decreases s@.len() - i,
    {
        i = i + 1;
    }
    proof {
        lemma_char_pos(s@, c, i as int);
    }
    i
}

pub fn parse_ln(part: Option<&[char]>) -> (r: Option<usize>)
    ensures
        r == line_number(match part {
            Some(p) => Some(p@),
            None => None,
        }),
{
    match part {
        None => None,
        Some(p) => {
            if p.len() > 0 && p[0] == 'L' {
                let digits = copy_chars(p, 1, p.len());
                proof {
                    assert(digits@ =~= p@.skip(1));
                }
                parse_usize(digits.as_slice())
            } else {
                None
            }
        },
    }
}

pub fn parse_line_spec(spec: Option<&[char]>) -> (r: (Option<usize>, Option<usize>))
    ensures
        r == line_range(match spec {
            Some(p) => Some(p@),
            None => None,
        }),
{
    match spec {
        None => (None, None),
        Some(sp) => {
            let v = copy_chars(sp, 0, sp.len());
            proof {
                assert(v@ =~= sp@);
            }
            let k = char_index(&v, '-');
            if k < v.len() {
                let a = copy_chars(sp, 0, k);
                let b = copy_chars(sp, k + 1, sp.len());
                proof {
                    assert(a@ =~= sp@.take(k as int));
                    assert(b@ =~= sp@.skip(k + 1));
                }
                (parse_ln(Some(a.as_slice())), parse_ln(Some(b.as_slice())))
            } else {
                (parse_ln(Some(sp)), None)
            }
        },
    }
}

pub fn parse_link(inner: &[char]) -> (r: WikiLink)
    ensures
        r@ == link_of(inner@),
{
    let v = copy_chars(inner, 0, inner.len());
    proof {
        assert(v@ =~= inner@);
    }
    let kp = char_index(&v, '|');
    let (path_part, label) = if kp < v.len() {
        let p = copy_chars(inner, 0, kp);
        let l = copy_chars(inner, kp + 1, inner.len());
        let lt = trimmed(l.as_slice());
        proof {
            assert(p@ =~= inner@.take(kp as int));
            assert(l@ =~= inner@.skip(kp + 1));
        }
        (p, Some(string_of(lt.as_slice())))
    } else {
        (v, None)
    };
    let kh = char_index(&path_part, '#');
    let (target, spec) = if kh < path_part.len() {
        let t = copy_chars(path_part.as_slice(), 0, kh);
        let s = copy_chars(path_part.as_slice(), kh + 1, path_part.len());
        proof {
            assert(t@ =~= path_part@.take(kh as int));
            assert(s@ =~= path_part@.skip(kh + 1));
        }
        (t, Some(s))
    } else {
        (path_part, None)
    };
    let (line, end_line) = match &spec {
        Some(s) => parse_line_spec(Some(s.as_slice())),
        None => parse_line_spec(None),
    };
    let tt = trimmed(target.as_slice());
    WikiLink { target: string_of(tt.as_slice()), label, line, end_line }
}

fn has_newline(s: &Vec<char>) -> (r: bool)
    ensures
        r == s@.contains('\n'),
{
    let mut i: usize = 0;
    while i < s.len()
        invariant
            i <= s@.len(),
            forall|j: int| 0 <= j < i ==> s@[j] != '\n',
        decreases s@.len() - i,
    {
        if s[i] == '\n' {
            proof {
                assert(s@[i as int] == '\n');
            }
            return true;
        }
        i = i + 1;
    }
    false
}

/// The first link of a text, if its first `[[` is closed: the link (none when
/// the inner text is malformed) and the text after the closing `]]`.
fn next_link(rest: &Vec<char>, open_pat: &Vec<char>, close_pat: &Vec<char>) -> (r: Option<(Option<WikiLink>, Vec<char>)>)
    requires
        open_pat@ == "[["@,
        close_pat@ == "]]"@,
        open_pat@.len() == 2,
        close_pat@.len() == 2,
    ensures
        match r {
            None => links_in(rest@) == Seq::<WikiLinkV>::empty(),
            Some((l, next)) => next@.len() < rest@.len() && links_in(rest@) == match l {
                Some(x) => seq![x@] + links_in(next@),
                None => links_in(next@),
            },
        },
{
    let found = find(rest.as_slice(), open_pat.as_slice());
    if found.is_none() {
        return None;
    }
    let open = found.unwrap();
    let n = rest.len();
    proof {
        assert(occurs_at(rest@, open_pat@, open as int));
        assert(open + 2 <= n);
    }
    let after = copy_chars(rest.as_slice(), open + 2, rest.len());
    proof {
        assert(after@ =~= rest@.skip(open + 2));
    }
    let found2 = find(after.as_slice(), close_pat.as_slice());
    if found2.is_none() {
        return None;
    }
    let close = found2.unwrap();
    proof {
        assert(occurs_at(after@, close_pat@, close as int));
    }
    let inner = copy_chars(after.as_slice(), 0, close);
    let next = copy_chars(after.as_slice(), close + 2, after.len());
    proof {
        assert(inner@ =~= after@.take(close as int));
        assert(next@ =~= after@.skip(close + 2));
    }
    let bad = inner.len() == 0 || find(inner.as_slice(), open_pat.as_slice()).is_some() || has_newline(&inner);
    if bad {
        Some((None, next))
    } else {
        Some((Some(parse_link(inner.as_slice())), next))
    }
}

/// Every well-formed `[[...]]` reference of a text, in order.
pub fn extract_wikilinks(text: &str) -> (r: Vec<WikiLink>)
    ensures
        links_view(r@) == links_in(text@),
{
    let open_pat = chars_of("[[");
    let close_pat = chars_of("]]");
    proof {
        reveal_strlit("[[");
        reveal_strlit("]]");
    }
    let mut out: Vec<WikiLink> = Vec::new();
    let mut rest = chars_of(text);
    proof {
        assert(links_view(out@) + links_in(rest@) =~= links_in(text@));
    }
    loop
        invariant
            open_pat@ == "[["@,
            close_pat@ == "]]"@,
            open_pat@.len() == 2,
            close_pat@.len() == 2,
            links_view(out@) + links_in(rest@) == links_in(text@),
        decreases rest@.len(),
    {
        match next_link(&rest, &open_pat, &close_pat) {
            None => {
                proof {
                    assert(links_view(out@) + Seq::<WikiLinkV>::empty() =~= links_view(out@));
                }
                return out;
            },
            Some((l, next)) => {
                match l {
                    Some(link) => {
                        let ghost prev = out@;
                        let ghost lv = link@;
                        out.push(link);
                        proof {
                            assert(links_view(out@) =~= links_view(prev).push(lv));
                            assert(links_view(out@) + links_in(next@) =~= links_view(prev) + (seq![lv] + links_in(next@)));
                        }
                    },
                    None => {},
                }
                rest = next;
            },
        }
    }
}

} // verus!
