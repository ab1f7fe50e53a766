//! Splitting a Markdown document into search chunks along its heading
//! structure, with line numbers relative to the whole file.
use vstd::prelude::*;
use crate::text::{
    str_lines, seq_join, trim, trim_end, utf8_len, char_bytes, digits, chars_of, lines_of, char_len_utf8,
    string_of, push_str, push_decimal, trimmed, trim_end_len, copy_chars,
};
use crate::markdown::{split_frontmatter, parse, join_lines};

verus! {

/// Lines a chunk may span before it is split.
pub const DEFAULT_MAX_CHUNK_LINES: usize = 80;

#[derive(Debug, Clone)]
pub struct Chunk {
    pub path: String,
    /// 1-based, inclusive, relative to the whole file (frontmatter included).
    pub start_line: usize,
    pub end_line: usize,
    /// e.g. `# 一级 > ## 二级`, with ` [Part X/N]` appended for line-split chunks.
    pub breadcrumb: String,
    pub text: String,
    /// What BM25 indexes: breadcrumb + text, plus frontmatter name/description on the first chunk.
    pub search_text: String,
}

pub struct ChunkV {
    pub path: Seq<char>,
    pub start_line: nat,
    pub end_line: nat,
    pub breadcrumb: Seq<char>,
    pub text: Seq<char>,
    pub search_text: Seq<char>,
}

pub open spec fn chunk_view(c: Chunk) -> ChunkV {
    ChunkV {
        path: c.path@,
        start_line: c.start_line as nat,
        end_line: c.end_line as nat,
        breadcrumb: c.breadcrumb@,
        text: c.text@,
        search_text: c.search_text@,
    }
}

pub open spec fn chunks_view(v: Seq<Chunk>) -> Seq<ChunkV> {
    v.map_values(|c: Chunk| chunk_view(c))
}

/// One event of a CommonMark parse, as far as headings need it.
#[derive(Debug)]
pub enum MdEvent {
    HeadingStart { level: usize, offset: usize },
    Text(String),
    HeadingEnd,
    Other,
}

pub enum MdEventV {
    HeadingStart { level: usize, offset: usize },
    Text(Seq<char>),
    HeadingEnd,
    Other,
}

pub open spec fn event_v(e: MdEvent) -> MdEventV {
    match e {
        MdEvent::HeadingStart { level, offset } => MdEventV::HeadingStart { level, offset },
        MdEvent::Text(t) => MdEventV::Text(t@),
        MdEvent::HeadingEnd => MdEventV::HeadingEnd,
        MdEvent::Other => MdEventV::Other,
    }
}

pub open spec fn md_events_view(v: Seq<MdEvent>) -> Seq<MdEventV> {
    v.map_values(|e: MdEvent| event_v(e))
}

/// What `pulldown_cmark` reports for a document: heading starts with their
/// level and byte offset, the text and inline code inside them, heading ends,
/// and everything else.
pub uninterp spec fn markdown_events(body: Seq<char>) -> Seq<MdEventV>;

/// `pulldown_cmark::Parser::new_ext(body, Options::empty()).into_offset_iter()`,
/// each event reduced to what headings need; the contract names the result
/// `markdown_events` of the body.
#[verifier::external_body]
fn parse_events(body: &str) -> (r: Vec<MdEvent>)
    ensures
        md_events_view(r@) == markdown_events(body@),
{
    pulldown_cmark::Parser::new_ext(body, pulldown_cmark::Options::empty())
        .into_offset_iter()
        .map(|(event, range)| match event {
            pulldown_cmark::Event::Start(pulldown_cmark::Tag::Heading { level, .. }) => MdEvent::HeadingStart {
                level: level as usize,
                offset: range.start,
            },
            pulldown_cmark::Event::Text(t) => MdEvent::Text(t.to_string()),
            pulldown_cmark::Event::Code(t) => MdEvent::Text(t.to_string()),
            pulldown_cmark::Event::End(pulldown_cmark::TagEnd::Heading(_)) => MdEvent::HeadingEnd,
            _ => MdEvent::Other,
        })
        .collect()
}

// ---------------------------------------------------------------------------
// Lines and headings.

/// Byte offsets at which the lines of a text start: 0, and one past each newline.
pub open spec fn line_start_offsets(s: Seq<char>) -> Seq<nat>
    decreases s.len(),
{
    if s.len() == 0 {
        seq![0nat]
    } else if s.last() == '\n' {
        line_start_offsets(s.drop_last()).push(utf8_len(s))
    } else {
        line_start_offsets(s.drop_last())
    }
}

/// The 1-based line holding a byte offset: how many line starts are at or
/// before it.
pub open spec fn line_of(starts: Seq<nat>, offset: nat) -> nat
    decreases starts.len(),
{
    if starts.len() == 0 {
        0
    } else {
        line_of(starts.drop_last(), offset) + if starts.last() <= offset { 1nat } else { 0nat }
    }
}

pub fn line_starts(text: &str) -> (r: Vec<usize>)
    ensures
        r@.map_values(|x: usize| x as nat) == line_start_offsets(text@),
{
    let cs = chars_of(text);
    let total = crate::text::byte_len(text);
    let mut starts: Vec<usize> = Vec::new();
    starts.push(0);
    let mut bytes: usize = 0;
    let mut i: usize = 0;
    proof {
        assert(cs@.take(0) =~= Seq::<char>::empty());
        assert(starts@.map_values(|x: usize| x as nat) =~= seq![0nat]);
    }
    while i < cs.len()
        invariant
            i <= cs@.len(),
            cs@ == text@,
            bytes == utf8_len(cs@.take(i as int)),
            total == utf8_len(text@),
            starts@.map_values(|x: usize| x as nat) == line_start_offsets(cs@.take(i as int)),
        decreases cs@.len() - i,
    {
        let c = cs[i];
        proof {
            assert(cs@.take(i as int + 1).drop_last() =~= cs@.take(i as int));
            assert(cs@.take(i as int + 1).last() == c);
            crate::text::lemma_utf8_len_mono(cs@, i as int + 1, cs@.len() as int);
            assert(cs@.take(cs@.len() as int) =~= cs@);
        }
        bytes = bytes + char_len_utf8(c);
        if c == '\n' {
            let ghost prev = starts@;
            starts.push(bytes);
            proof {
                assert(starts@.map_values(|x: usize| x as nat) =~= prev.map_values(|x: usize| x as nat).push(bytes as nat));
            }
        }
        i = i + 1;
    }
    proof {
        assert(cs@.take(cs@.len() as int) =~= cs@);
    }
    starts
}

pub fn offset_to_line(line_starts: &Vec<usize>, offset: usize) -> (r: usize)
    ensures
        r == line_of(line_starts@.map_values(|x: usize| x as nat), offset as nat),
{
    let ghost sv = line_starts@.map_values(|x: usize| x as nat);
    let mut n: usize = 0;
    let mut i: usize = 0;
    proof {
        assert(sv.take(0) =~= Seq::<nat>::empty());
    }
    while i < line_starts.len()
        invariant
            i <= line_starts@.len(),
            n <= i,
            sv == line_starts@.map_values(|x: usize| x as nat),
            n == line_of(sv.take(i as int), offset as nat),
        decreases line_starts@.len() - i,
    {
        proof {
            assert(sv.take(i as int + 1).drop_last() =~= sv.take(i as int));
        }
        if line_starts[i] <= offset {
            n = n + 1;
        }
        i = i + 1;
    }
    proof {
        assert(sv.take(line_starts@.len() as int) =~= sv);
    }
    n
}

#[derive(Debug)]
pub struct Heading {
    pub line: usize,
    pub level: usize,
    pub title: String,
}

pub struct HeadingV {
    pub line: nat,
    pub level: nat,
    pub title: Seq<char>,
}

pub open spec fn heading_v(h: Heading) -> HeadingV {
    HeadingV { line: h.line as nat, level: h.level as nat, title: h.title@ }
}

pub open spec fn headings_view(v: Seq<Heading>) -> Seq<HeadingV> {
    v.map_values(|h: Heading| heading_v(h))
}

/// The headings found so far, and the heading being read: its line, level and
/// the text gathered for its title.
pub open spec fn heading_scan(events: Seq<MdEventV>, starts: Seq<nat>) -> (Seq<HeadingV>, Option<(nat, nat, Seq<char>)>)
    decreases events.len(),
{
    if events.len() == 0 {
        (Seq::empty(), None)
    } else {
        let (hs, cur) = heading_scan(events.drop_last(), starts);
        match events.last() {
            MdEventV::HeadingStart { level, offset } => (hs, Some((line_of(starts, offset as nat), level as nat, Seq::empty()))),
            MdEventV::Text(t) => (hs, match cur {
                Some((l, v, tt)) => Some((l, v, tt + t)),
                None => None,
            }),
            MdEventV::HeadingEnd => match cur {
                Some((l, v, tt)) => (hs.push(HeadingV { line: l, level: v, title: trim(tt) }), None),
                None => (hs, None),
            },
            MdEventV::Other => (hs, cur),
        }
    }
}

/// The headings of a body: line (1-based), level and trimmed title text.
pub open spec fn headings_of(body: Seq<char>) -> Seq<HeadingV> {
    heading_scan(markdown_events(body), line_start_offsets(body)).0
}

pub fn find_headings(body: &str) -> (r: Vec<Heading>)
    ensures
        headings_view(r@) == headings_of(body@),
{
    let starts = line_starts(body);
    let ghost sv = starts@.map_values(|x: usize| x as nat);
    let events = parse_events(body);
    let ghost ev = md_events_view(events@);
    let mut headings: Vec<Heading> = Vec::new();
    let mut current: Option<(usize, usize, String)> = None;
    let mut i: usize = 0;
    proof {
        assert(ev.take(0) =~= Seq::<MdEventV>::empty());
    }
    while i < events.len()
        invariant
            i <= events@.len(),
            ev == md_events_view(events@),
            ev == markdown_events(body@),
            sv == starts@.map_values(|x: usize| x as nat),
            sv == line_start_offsets(body@),
            heading_scan(ev.take(i as int), sv) == (headings_view(headings@), match current {
                Some((l, v, t)) => Some((l as nat, v as nat, t@)),
                None => None,
            }),
        decreases events@.len() - i,
    {
        proof {
            assert(ev.take(i as int + 1).drop_last() =~= ev.take(i as int));
            assert(ev.take(i as int + 1).last() == event_v(events@[i as int]));
        }
        match &events[i] {
            MdEvent::HeadingStart { level, offset } => {
                let line = offset_to_line(&starts, *offset);
                current = Some((line, *level, String::new()));
            },
            MdEvent::Text(t) => {
                match current {
                    Some((l, v, tt)) => {
                        let mut tt = tt;
                        push_str(&mut tt, t.as_str());
                        current = Some((l, v, tt));
                    },
                    None => {},
                }
            },
            MdEvent::HeadingEnd => {
                match current {
                    Some((l, v, tt)) => {
                        let title = string_of(trimmed(chars_of(tt.as_str()).as_slice()).as_slice());
                        let h = Heading { line: l, level: v, title };
                        let ghost prev = headings@;
                        let ghost hv = heading_v(h);
                        headings.push(h);
                        proof {
                            assert(headings_view(headings@) =~= headings_view(prev).push(hv));
                        }
                        current = None;
                    },
                    None => {},
                }
            },
            MdEvent::Other => {},
        }
        i = i + 1;
    }
    proof {
        assert(ev.take(events@.len() as int) =~= ev);
    }
    headings
}

/// Index of the first heading after `i` of the same or a higher level.
pub open spec fn next_peer(hs: Seq<HeadingV>, i: int) -> Option<int> {
    if exists|j: int| i < j < hs.len() && (#[trigger] hs[j]).level <= hs[i].level {
        Some(
            choose|j: int|
                i < j < hs.len() && (#[trigger] hs[j]).level <= hs[i].level && forall|k: int|
                    i < k < j ==> (#[trigger] hs[k]).level > hs[i].level,
        )
    } else {
        None
    }
}

/// Inclusive body-relative end line of a heading's section: up to the next
/// heading of same-or-higher level, or the end of the document.
pub open spec fn section_end(hs: Seq<HeadingV>, i: int, doc_lines: nat) -> int {
    match next_peer(hs, i) {
        Some(j) => hs[j].line - 1,
        None => doc_lines as int,
    }
}

pub fn section_ends(headings: &Vec<Heading>, doc_lines: usize) -> (r: Vec<usize>)
    requires
        forall|j: int| 0 <= j < headings@.len() ==> (#[trigger] headings@[j]).line >= 1,
    ensures
        r@.len() == headings@.len(),
        forall|i: int| 0 <= i < r@.len() ==> (#[trigger] r@[i]) as int == section_end(headings_view(headings@), i, doc_lines as nat),
{
    let ghost hv = headings_view(headings@);
    let mut out: Vec<usize> = Vec::new();
    let mut i: usize = 0;
    while i < headings.len()
        invariant
            i <= headings@.len(),
            hv == headings_view(headings@),
            forall|j: int| 0 <= j < headings@.len() ==> (#[trigger] headings@[j]).line >= 1,
            out@.len() == i,
            forall|k: int| 0 <= k < i ==> (#[trigger] out@[k]) as int == section_end(hv, k, doc_lines as nat),
        decreases headings@.len() - i,
    {
        let mut j: usize = i + 1;
        while j < headings.len() && headings[j].level > headings[i].level
            invariant
                i < j <= headings@.len(),
                hv == headings_view(headings@),
                forall|k: int| i < k < j ==> (#[trigger] hv[k]).level > hv[i as int].level,
            decreases headings@.len() - j,
        {
            proof {
                assert(hv[j as int].level == headings@[j as int].level);
            }
            j = j + 1;
        }
        let e = if j < headings.len() {
            proof {
                assert(hv[j as int].level <= hv[i as int].level);
                let c = next_peer(hv, i as int).unwrap();
                if c != j {
                    if c < j {
                        assert(hv[c].level > hv[i as int].level);
                    } else {
                        assert(hv[j as int].level > hv[i as int].level);
                    }
                }
            }
            headings[j].line - 1
        } else {
            proof {
                assert(!exists|k: int| i < k < hv.len() && (#[trigger] hv[k]).level <= hv[i as int].level);
            }
            doc_lines
        };
        out.push(e);
        i = i + 1;
    }
    out
}

// ---------------------------------------------------------------------------
// Chunks.

pub open spec fn chunk_of(path: Seq<char>, lines: Seq<Seq<char>>, start: int, end: int, bc: Seq<char>, offset: int) -> ChunkV {
    let text = seq_join(lines.subrange(start - 1, end), "\n"@);
    ChunkV {
        path: path,
        start_line: (start + offset) as nat,
        end_line: (end + offset) as nat,
        breadcrumb: bc,
        text: text,
        search_text: if bc.len() == 0 { text } else { bc + "\n"@ + text },
    }
}

pub open spec fn part_label(bc: Seq<char>, idx: nat, parts: nat) -> Seq<char> {
    bc + " [Part "@ + digits(idx) + "/"@ + digits(parts) + "]"@
}

/// Consecutive runs of `max` lines from `pos` to `end`, numbered from `idx`.
pub open spec fn split_from(
    path: Seq<char>,
    lines: Seq<Seq<char>>,
    pos: int,
    end: int,
    bc: Seq<char>,
    max: int,
    offset: int,
    idx: nat,
    parts: nat,
) -> Seq<ChunkV>
    decreases end + 1 - pos,
{
    if pos > end || max <= 0 {
        Seq::empty()
    } else {
        let ce = if end - pos < max { end } else { pos + max - 1 };
        let label = if parts > 1 { part_label(bc, idx, parts) } else { bc };
        seq![chunk_of(path, lines, pos, ce, label, offset)] + split_from(path, lines, ce + 1, end, bc, max, offset, idx + 1, parts)
    }
}

/// A run of lines too long for one chunk, cut into labelled parts.
pub open spec fn split_spec(path: Seq<char>, lines: Seq<Seq<char>>, start: int, end: int, bc: Seq<char>, max: int, offset: int) -> Seq<ChunkV> {
    let n = end - start + 1;
    let parts = (n / max + if n % max != 0 { 1int } else { 0int }) as nat;
    split_from(path, lines, start, end, bc, max, offset, 1, parts)
}

/// Nothing for an empty range, one chunk for a short one, parts otherwise.
pub open spec fn emit_spec(path: Seq<char>, lines: Seq<Seq<char>>, start: int, end: int, bc: Seq<char>, max: int, offset: int) -> Seq<ChunkV> {
    if start > end {
        Seq::empty()
    } else if end - start < max {
        seq![chunk_of(path, lines, start, end, bc, offset)]
    } else {
        split_spec(path, lines, start, end, bc, max, offset)
    }
}

pub open spec fn hashes(n: nat) -> Seq<char> {
    Seq::new(n, |i: int| '#')
}

/// A section's breadcrumb: its parent's, then ` > `, then its heading written
/// with `#` marks.
pub open spec fn crumb(parent: Seq<char>, h: HeadingV) -> Seq<char> {
    let title = hashes(h.level) + " "@ + h.title;
    if parent.len() == 0 { title } else { parent + " > "@ + title }
}

/// The index after the headings that follow `i` and start within its section.
pub open spec fn window_end(hs: Seq<HeadingV>, i: int, end: int) -> int {
    if exists|j: int| i < j < hs.len() && (#[trigger] hs[j]).line > end {
        choose|j: int| i < j < hs.len() && (#[trigger] hs[j]).line > end && forall|k: int| i < k < j ==> (#[trigger] hs[k]).line <= end
    } else {
        hs.len() as int
    }
}

/// The lowest level deeper than heading `i` among the headings before `k`.
pub open spec fn min_above(hs: Seq<HeadingV>, i: int, k: int) -> Option<nat>
    decreases k - i,
{
    if k <= i + 1 {
        None
    } else {
        let prev = min_above(hs, i, k - 1);
        let lv = hs[k - 1].level;
        if lv > hs[i].level {
            match prev {
                None => Some(lv),
                Some(m) => Some(if lv < m { lv } else { m }),
            }
        } else {
            prev
        }
    }
}

/// The headings after `i` and before `k` at the given level.
pub open spec fn kids(hs: Seq<HeadingV>, i: int, k: int, level: nat) -> Seq<int>
    decreases k - i,
{
    if k <= i + 1 {
        Seq::empty()
    } else if hs[k - 1].level == level {
        kids(hs, i, k - 1, level).push(k - 1)
    } else {
        kids(hs, i, k - 1, level)
    }
}

/// The chunks of heading `i`'s section: one chunk when it is short enough;
/// otherwise its introduction and then each subsection at the next level down,
/// or line parts when it has none.
pub open spec fn section_spec(
    path: Seq<char>,
    lines: Seq<Seq<char>>,
    hs: Seq<HeadingV>,
    i: int,
    parent: Seq<char>,
    max: int,
    offset: int,
) -> Seq<ChunkV>
    decreases (hs.len() - i) as nat, 1nat, 0nat,
{
    let h = hs[i];
    let bc = crumb(parent, h);
    let start = h.line as int;
    let end = section_end(hs, i, lines.len());
    if end - start < max {
        seq![chunk_of(path, lines, start, end, bc, offset)]
    } else {
        let w = window_end(hs, i, end);
        match min_above(hs, i, w) {
            None => split_spec(path, lines, start, end, bc, max, offset),
            Some(cl) => {
                let ks = kids(hs, i, w, cl);
                emit_spec(path, lines, start, hs[ks[0]].line - 1, bc, max, offset) + sections_of(
                    path,
                    lines,
                    hs,
                    i,
                    ks,
                    bc,
                    max,
                    offset,
                )
            },
        }
    }
}

/// The sections of the listed headings in turn, each after heading `i`.
pub open spec fn sections_of(
    path: Seq<char>,
    lines: Seq<Seq<char>>,
    hs: Seq<HeadingV>,
    i: int,
    ks: Seq<int>,
    bc: Seq<char>,
    max: int,
    offset: int,
) -> Seq<ChunkV>
    decreases (hs.len() - i) as nat, 0nat, ks.len(),
{
    if ks.len() == 0 {
        Seq::empty()
    } else {
        sections_of(path, lines, hs, i, ks.drop_last(), bc, max, offset) + if i < ks.last() < hs.len() {
            section_spec(path, lines, hs, ks.last(), bc, max, offset)
        } else {
            Seq::empty()
        }
    }
}

/// The headings of every level, lowest level number first.
pub open spec fn top_level(hs: Seq<HeadingV>) -> nat
    decreases hs.len(),
{
    if hs.len() <= 1 {
        if hs.len() == 1 { hs[0].level } else { 0 }
    } else {
        let m = top_level(hs.drop_last());
        if hs.last().level < m { hs.last().level } else { m }
    }
}

pub open spec fn level_indices(hs: Seq<HeadingV>, k: int, level: nat) -> Seq<int>
    decreases k,
{
    if k <= 0 {
        Seq::empty()
    } else if hs[k - 1].level == level {
        level_indices(hs, k - 1, level).push(k - 1)
    } else {
        level_indices(hs, k - 1, level)
    }
}

/// The chunks of a body: a preamble before the first heading, then the
/// sections of the top-level headings.
pub open spec fn body_chunks(path: Seq<char>, lines: Seq<Seq<char>>, hs: Seq<HeadingV>, max: int, offset: int) -> Seq<ChunkV> {
    let n = lines.len() as int;
    if n == 0 {
        Seq::empty()
    } else if hs.len() == 0 {
        emit_spec(path, lines, 1, n, Seq::empty(), max, offset)
    } else {
        (if hs[0].line > 1 { emit_spec(path, lines, 1, hs[0].line - 1, Seq::empty(), max, offset) } else { Seq::empty() })
            + sections_of(path, lines, hs, -1, level_indices(hs, hs.len() as int, top_level(hs)), Seq::empty(), max, offset)
    }
}

/// Headings start on distinct lines of the body, in order.
pub open spec fn headings_ok(hs: Seq<HeadingV>, n: nat) -> bool {
    &&& forall|j: int| 0 <= j < hs.len() ==> 1 <= (#[trigger] hs[j]).line <= n
    &&& forall|a: int, b: int| 0 <= a < b < hs.len() ==> (#[trigger] hs[a]).line < (#[trigger] hs[b]).line
}

pub open spec fn opt_text(o: Option<&str>) -> Seq<char> {
    match o {
        Some(s) => s@ + "\n"@,
        None => Seq::empty(),
    }
}

/// Frontmatter name and description lead the first chunk's search text; a
/// document without chunks gets one holding only them.
pub open spec fn with_prefix(chunks: Seq<ChunkV>, path: Seq<char>, prefix: Seq<char>) -> Seq<ChunkV> {
    if prefix.len() == 0 {
        chunks
    } else if chunks.len() > 0 {
        chunks.update(0, ChunkV { search_text: prefix + chunks[0].search_text, ..chunks[0] })
    } else {
        seq![ChunkV {
            path: path,
            start_line: 1,
            end_line: 1,
            breadcrumb: Seq::empty(),
            text: Seq::empty(),
            search_text: trim_end(prefix),
        }]
    }
}

fn push_chunk(out: &mut Vec<Chunk>, path: &str, lines: &Vec<Vec<char>>, start: usize, end: usize, breadcrumb: String, offset: usize)
    requires
        1 <= start <= end <= lines@.len(),
        end + offset <= usize::MAX,
    ensures
        chunks_view(final(out)@) == chunks_view(old(out)@).push(
            chunk_of(path@, lines@.map_values(|l: Vec<char>| l@), start as int, end as int, breadcrumb@, offset as int),
        ),
{
    let text = join_lines(lines, start - 1, end);
    let search_text = if breadcrumb.as_str().is_empty() {
        text.clone()
    } else {
        let mut s = breadcrumb.clone();
        push_str(&mut s, "\n");
        push_str(&mut s, text.as_str());
        s
    };
    let c = Chunk {
        path: path.to_owned(),
        start_line: start + offset,
        end_line: end + offset,
        breadcrumb,
        text,
        search_text,
    };
    let ghost cv = chunk_view(c);
    out.push(c);
    proof {
        assert(chunks_view(out@) =~= chunks_view(old(out)@).push(cv));
    }
}

pub open spec fn lines_v(lines: Seq<Vec<char>>) -> Seq<Seq<char>> {
    lines.map_values(|l: Vec<char>| l@)
}

fn split_lines(out: &mut Vec<Chunk>, path: &str, lines: &Vec<Vec<char>>, start: usize, end: usize, bc: &str, max: usize, offset: usize)
    requires
        1 <= start <= end <= lines@.len(),
        max > 0,
        end + offset < usize::MAX,
    ensures
        chunks_view(final(out)@) == chunks_view(old(out)@) + split_spec(
            path@,
            lines_v(lines@),
            start as int,
            end as int,
            bc@,
            max as int,
            offset as int,
        ),
{
    let n = end - start + 1;
    proof {
        if n % max != 0 {
            assert(max >= 2);
            assert(n / max < usize::MAX) by (nonlinear_arith)
                requires
                    max >= 2,
                    n <= usize::MAX,
            ;
        }
    }
    let parts = n / max + if n % max != 0 { 1 } else { 0 };
    let mut pos = start;
    let mut idx: usize = 1;
    let ghost total = split_spec(path@, lines_v(lines@), start as int, end as int, bc@, max as int, offset as int);
    proof {
        assert(chunks_view(old(out)@) + total =~= chunks_view(out@) + split_from(
            path@,
            lines_v(lines@),
            pos as int,
            end as int,
            bc@,
            max as int,
            offset as int,
            idx as nat,
            parts as nat,
        ));
    }
    while pos <= end
        invariant
            1 <= start <= pos <= end + 1,
            end <= lines@.len(),
            max > 0,
            end + offset < usize::MAX,
            idx <= pos,
            total == split_spec(path@, lines_v(lines@), start as int, end as int, bc@, max as int, offset as int),
            parts == n / max + if n % max != 0 { 1usize } else { 0usize },
            n == end - start + 1,
            chunks_view(old(out)@) + total == chunks_view(out@) + split_from(
                path@,
                lines_v(lines@),
                pos as int,
                end as int,
                bc@,
                max as int,
                offset as int,
                idx as nat,
                parts as nat,
            ),
        decreases end + 1 - pos,
    {
        let chunk_end = if end - pos < max { end } else { pos + max - 1 };
        let label = if parts > 1 {
            let mut l = bc.to_owned();
            push_str(&mut l, " [Part ");
            push_decimal(&mut l, idx as u64);
            push_str(&mut l, "/");
            push_decimal(&mut l, parts as u64);
            push_str(&mut l, "]");
            l
        } else {
            bc.to_owned()
        };
        let ghost before = chunks_view(out@);
        push_chunk(out, path, lines, pos, chunk_end, label, offset);
        proof {
            let rest = split_from(path@, lines_v(lines@), chunk_end + 1, end as int, bc@, max as int, offset as int, idx as nat + 1, parts as nat);
            assert(chunks_view(out@) + rest =~= before + (seq![chunk_of(
                path@,
                lines_v(lines@),
                pos as int,
                chunk_end as int,
                label@,
                offset as int,
            )] + rest));
        }
        pos = chunk_end + 1;
        idx = idx + 1;
    }
    proof {
        assert(chunks_view(out@) + Seq::<ChunkV>::empty() =~= chunks_view(out@));
    }
}

fn emit_or_split(out: &mut Vec<Chunk>, path: &str, lines: &Vec<Vec<char>>, start: usize, end: usize, bc: &str, max: usize, offset: usize)
    requires
        1 <= start,
        end <= lines@.len(),
        max > 0,
        end + offset < usize::MAX,
    ensures
        chunks_view(final(out)@) == chunks_view(old(out)@) + emit_spec(
            path@,
            lines_v(lines@),
            start as int,
            end as int,
            bc@,
            max as int,
            offset as int,
        ),
{
    if start > end {
        proof {
            assert(chunks_view(out@) + Seq::<ChunkV>::empty() =~= chunks_view(out@));
        }
        return;
    }
    if end - start < max {
        push_chunk(out, path, lines, start, end, bc.to_owned(), offset);
        proof {
            assert(chunks_view(old(out)@).push(chunk_of(path@, lines_v(lines@), start as int, end as int, bc@, offset as int))
                =~= chunks_view(old(out)@) + seq![chunk_of(path@, lines_v(lines@), start as int, end as int, bc@, offset as int)]);
        }
    } else {
        split_lines(out, path, lines, start, end, bc, max, offset);
    }
}


// ---------------------------------------------------------------------------
// Sections.

/// Where some heading after `i` is of the same or a higher level, a first such
/// heading exists.
proof fn lemma_first_peer(hs: Seq<HeadingV>, i: int, from: int)
    requires
        0 <= i < from <= hs.len(),
        exists|j: int| from <= j < hs.len() && (#[trigger] hs[j]).level <= hs[i].level,
        forall|k: int| i < k < from ==> (#[trigger] hs[k]).level > hs[i].level,
    ensures
        exists|j: int|
            i < j < hs.len() && (#[trigger] hs[j]).level <= hs[i].level && forall|k: int|
                i < k < j ==> (#[trigger] hs[k]).level > hs[i].level,
    decreases hs.len() - from,
{
    if hs[from].level > hs[i].level {
        let j = choose|j: int| from <= j < hs.len() && (#[trigger] hs[j]).level <= hs[i].level;
        assert(j != from);
        lemma_first_peer(hs, i, from + 1);
    }
}

/// A section starts at its heading and ends within the document.
proof fn lemma_section_bounds(hs: Seq<HeadingV>, i: int, n: nat)
    requires
        headings_ok(hs, n),
        0 <= i < hs.len(),
    ensures
        hs[i].line <= section_end(hs, i, n) <= n,
{
    if exists|j: int| i < j < hs.len() && (#[trigger] hs[j]).level <= hs[i].level {
        lemma_first_peer(hs, i, i + 1);
        let j = next_peer(hs, i).unwrap();
        assert(hs[i].line < hs[j].line);
    }
}

/// Where a deeper level occurs among the headings, some heading has it.
proof fn lemma_min_above_kids(hs: Seq<HeadingV>, i: int, k: int, m: nat)
    requires
        min_above(hs, i, k) == Some(m),
    ensures
        kids(hs, i, k, m).len() > 0,
    decreases k - i,
{
    if k > i + 1 && hs[k - 1].level != m {
        lemma_min_above_kids(hs, i, k - 1, m);
    }
}

pub open spec fn opt_nat(o: Option<usize>) -> Option<nat> {
    match o {
        Some(m) => Some(m as nat),
        None => None,
    }
}

fn push_hashes(s: &mut String, n: usize)
    ensures
        final(s)@ == old(s)@ + hashes(n as nat),
{
    let mut i: usize = 0;
    while i < n
        invariant
            i <= n,
            s@ == old(s)@ + hashes(i as nat),
        decreases n - i,
    {
        crate::text::push_char(s, '#');
        proof {
            assert(hashes(i as nat + 1) =~= hashes(i as nat).push('#'));
            assert(old(s)@ + hashes(i as nat + 1) =~= (old(s)@ + hashes(i as nat)).push('#'));
        }
        i = i + 1;
    }
}

fn section_crumb(parent: &str, h: &Heading) -> (r: String)
    ensures
        r@ == crumb(parent@, heading_v(*h)),
{
    let mut s = String::new();
    if !parent.is_empty() {
        push_str(&mut s, parent);
        push_str(&mut s, " > ");
    }
    push_hashes(&mut s, h.level);
    push_str(&mut s, " ");
    push_str(&mut s, h.title.as_str());
    proof {
        let title = hashes(h.level as nat) + " "@ + h.title@;
        if parent@.len() == 0 {
            assert(s@ =~= title);
        } else {
            assert(s@ =~= parent@ + " > "@ + title);
        }
    }
    s
}

/// The index after the headings that follow `i` and start by line `end`.
fn section_window(headings: &Vec<Heading>, i: usize, end: usize) -> (w: usize)
    requires
        i < headings@.len(),
    ensures
        i < w <= headings@.len(),
        w == window_end(headings_view(headings@), i as int, end as int),
{
    let ghost hv = headings_view(headings@);
    let n = headings.len();
    let mut w: usize = i + 1;
    while w < n && headings[w].line <= end
        invariant
            i < w <= n,
            n == headings@.len(),
            hv == headings_view(headings@),
            forall|k: int| i < k < w ==> (#[trigger] hv[k]).line <= end,
        decreases n - w,
    {
        proof {
            assert(hv[w as int] == heading_v(headings@[w as int]));
        }
        w = w + 1;
    }
    proof {
        if w < n {
            assert(hv[w as int] == heading_v(headings@[w as int]));
            assert(hv[w as int].line > end);
            let c = window_end(hv, i as int, end as int);
            if c != w {
                if c < w {
                    assert(hv[c].line <= end);
                } else {
                    assert(hv[w as int].line <= end);
                }
            }
        } else {
            assert(!exists|j: int| i < j < hv.len() && (#[trigger] hv[j]).line > end);
        }
    }
    w
}

/// The lowest level deeper than heading `i` among the headings before `w`.
fn deeper_level(headings: &Vec<Heading>, i: usize, w: usize) -> (r: Option<usize>)
    requires
        i < w <= headings@.len(),
    ensures
        opt_nat(r) == min_above(headings_view(headings@), i as int, w as int),
{
    let ghost hv = headings_view(headings@);
    let mut cl: Option<usize> = None;
    let mut k: usize = i + 1;
    proof {
        assert(hv[i as int] == heading_v(headings@[i as int]));
    }
    while k < w
        invariant
            i < k <= w <= headings@.len(),
            hv == headings_view(headings@),
            hv[i as int].level == headings@[i as int].level,
            opt_nat(cl) == min_above(hv, i as int, k as int),
        decreases w - k,
    {
        proof {
            assert(hv[k as int] == heading_v(headings@[k as int]));
        }
        let lv = headings[k].level;
        if lv > headings[i].level {
            cl = match cl {
                None => Some(lv),
                Some(m) => Some(if lv < m { lv } else { m }),
            };
        }
        k = k + 1;
    }
    cl
}

/// The headings after `i` and before `w` at level `cl`.
fn children(headings: &Vec<Heading>, i: usize, w: usize, cl: usize) -> (ks: Vec<usize>)
    requires
        i < w <= headings@.len(),
    ensures
        ks@.map_values(|x: usize| x as int) == kids(headings_view(headings@), i as int, w as int, cl as nat),
        forall|t: int| 0 <= t < ks@.len() ==> i < (#[trigger] ks@[t]) < w,
{
    let ghost hv = headings_view(headings@);
    let mut ks: Vec<usize> = Vec::new();
    let mut k: usize = i + 1;
    proof {
        assert(ks@.map_values(|x: usize| x as int) =~= Seq::<int>::empty());
    }
    while k < w
        invariant
            i < k <= w <= headings@.len(),
            hv == headings_view(headings@),
            ks@.map_values(|x: usize| x as int) == kids(hv, i as int, k as int, cl as nat),
            forall|t: int| 0 <= t < ks@.len() ==> i < (#[trigger] ks@[t]) < k,
        decreases w - k,
    {
        proof {
            assert(hv[k as int] == heading_v(headings@[k as int]));
        }
        if headings[k].level == cl {
            let ghost prev = ks@;
            ks.push(k);
            proof {
                assert(ks@.map_values(|x: usize| x as int) =~= prev.map_values(|x: usize| x as int).push(k as int));
            }
        }
        k = k + 1;
    }
    ks
}

/// The sections of the listed headings, each below heading `i`, in turn.
fn chunk_children(
    out: &mut Vec<Chunk>,
    path: &str,
    lines: &Vec<Vec<char>>,
    headings: &Vec<Heading>,
    sec_end: &Vec<usize>,
    i: usize,
    ks: &Vec<usize>,
    bc: &str,
    max: usize,
    offset: usize,
)
    requires
        i < headings@.len(),
        forall|u: int| 0 <= u < ks@.len() ==> i < (#[trigger] ks@[u]) < headings@.len(),
        headings_ok(headings_view(headings@), lines@.len()),
        sec_end@.len() == headings@.len(),
        forall|k: int|
            0 <= k < sec_end@.len() ==> (#[trigger] sec_end@[k]) as int == section_end(
                headings_view(headings@),
                k,
                lines@.len(),
            ),
        max > 0,
        lines@.len() + offset < usize::MAX,
    ensures
        chunks_view(final(out)@) == chunks_view(old(out)@) + sections_of(
            path@,
            lines_v(lines@),
            headings_view(headings@),
            i as int,
            ks@.map_values(|x: usize| x as int),
            bc@,
            max as int,
            offset as int,
        ),
    decreases headings@.len() - i, 0nat,
{
    let ghost hv = headings_view(headings@);
    let ghost lv = lines_v(lines@);
    let ghost ksv = ks@.map_values(|x: usize| x as int);
    let ghost mid = chunks_view(out@);
    let mut t: usize = 0;
    proof {
        assert(ksv.take(0) =~= Seq::<int>::empty());
        assert(mid + Seq::<ChunkV>::empty() =~= mid);
    }
    while t < ks.len()
        invariant
            t <= ks@.len(),
            i < headings@.len(),
            ksv == ks@.map_values(|x: usize| x as int),
            forall|u: int| 0 <= u < ks@.len() ==> i < (#[trigger] ks@[u]) < headings@.len(),
            headings_ok(headings_view(headings@), lines@.len()),
            sec_end@.len() == headings@.len(),
            forall|k: int|
                0 <= k < sec_end@.len() ==> (#[trigger] sec_end@[k]) as int == section_end(
                    headings_view(headings@),
                    k,
                    lines@.len(),
                ),
            max > 0,
            lines@.len() + offset < usize::MAX,
            hv == headings_view(headings@),
            lv == lines_v(lines@),
            mid == chunks_view(old(out)@),
            chunks_view(out@) == mid + sections_of(path@, lv, hv, i as int, ksv.take(t as int), bc@, max as int, offset as int),
        decreases ks@.len() - t,
    {
        let c = ks[t];
        chunk_section(out, path, lines, headings, sec_end, c, bc, max, offset);
        proof {
            assert(ksv.take(t as int + 1).drop_last() =~= ksv.take(t as int));
            assert(ksv.take(t as int + 1).last() == c as int);
            let prev = sections_of(path@, lv, hv, i as int, ksv.take(t as int), bc@, max as int, offset as int);
            let sec = section_spec(path@, lv, hv, c as int, bc@, max as int, offset as int);
            assert(sections_of(path@, lv, hv, i as int, ksv.take(t as int + 1), bc@, max as int, offset as int) == prev + sec);
            assert(mid + prev + sec =~= mid + (prev + sec));
        }
        t = t + 1;
    }
    proof {
        assert(ksv.take(ks@.len() as int) =~= ksv);
    }
}

#[verifier::spinoff_prover]
#[verifier::rlimit(40)]
fn chunk_section(
    out: &mut Vec<Chunk>,
    path: &str,
    lines: &Vec<Vec<char>>,
    headings: &Vec<Heading>,
    sec_end: &Vec<usize>,
    i: usize,
    parent_bc: &str,
    max: usize,
    offset: usize,
)
    requires
        i < headings@.len(),
        headings_ok(headings_view(headings@), lines@.len()),
        sec_end@.len() == headings@.len(),
        forall|k: int|
            0 <= k < sec_end@.len() ==> (#[trigger] sec_end@[k]) as int == section_end(
                headings_view(headings@),
                k,
                lines@.len(),
            ),
        max > 0,
        lines@.len() + offset < usize::MAX,
    ensures
        chunks_view(final(out)@) == chunks_view(old(out)@) + section_spec(
            path@,
            lines_v(lines@),
            headings_view(headings@),
            i as int,
            parent_bc@,
            max as int,
            offset as int,
        ),
    decreases headings@.len() - i, 1nat,
{
    let ghost hv = headings_view(headings@);
    let ghost lv = lines_v(lines@);
    proof {
        lemma_section_bounds(hv, i as int, lines@.len());
        assert(hv[i as int] == heading_v(headings@[i as int]));
    }
    let bc = section_crumb(parent_bc, &headings[i]);
    let start = headings[i].line;
    let end = sec_end[i];
    if end - start < max {
        let ghost cv = chunk_of(path@, lv, start as int, end as int, bc@, offset as int);
        push_chunk(out, path, lines, start, end, bc, offset);
        proof {
            assert(chunks_view(old(out)@).push(cv) =~= chunks_view(old(out)@) + seq![cv]);
        }
        return;
    }
    let w = section_window(headings, i, end);
    let cl = deeper_level(headings, i, w);
    match cl {
        None => {
            split_lines(out, path, lines, start, end, bc.as_str(), max, offset);
        },
        Some(cl) => {
            let ks = children(headings, i, w, cl);
            let ghost ksv = ks@.map_values(|x: usize| x as int);
            proof {
                lemma_min_above_kids(hv, i as int, w as int, cl as nat);
                assert(ksv.len() == ks@.len());
                assert(hv[ks@[0] as int] == heading_v(headings@[ks@[0] as int]));
                assert(ksv[0] == ks@[0] as int);
            }
            let intro_end = headings[ks[0]].line - 1;
            emit_or_split(out, path, lines, start, intro_end, bc.as_str(), max, offset);
            chunk_children(out, path, lines, headings, sec_end, i, &ks, bc.as_str(), max, offset);
            proof {
                let e = emit_spec(path@, lv, start as int, hv[ksv[0]].line - 1, bc@, max as int, offset as int);
                let so = sections_of(path@, lv, hv, i as int, ksv, bc@, max as int, offset as int);
                assert(chunks_view(out@) =~= chunks_view(old(out)@) + (e + so));
            }
        },
    }
}


// ---------------------------------------------------------------------------
// Documents.

/// Whether the headings start on distinct lines of the body, in order.
fn check_headings(headings: &Vec<Heading>, n: usize) -> (r: bool)
    ensures
        r == headings_ok(headings_view(headings@), n as nat),
{
    let ghost hv = headings_view(headings@);
    let mut i: usize = 0;
    while i < headings.len()
        invariant
            i <= headings@.len(),
            hv == headings_view(headings@),
            forall|j: int| 0 <= j < i ==> 1 <= (#[trigger] hv[j]).line <= n,
            forall|a: int, b: int| 0 <= a < b < i ==> (#[trigger] hv[a]).line < (#[trigger] hv[b]).line,
        decreases headings@.len() - i,
    {
        proof {
            assert(hv[i as int] == heading_v(headings@[i as int]));
            if i > 0 {
                assert(hv[i - 1] == heading_v(headings@[i - 1]));
            }
        }
        let line = headings[i].line;
        if line < 1 || line > n {
            return false;
        }
        if i > 0 && headings[i - 1].line >= line {
            proof {
                assert(!(hv[i - 1].line < hv[i as int].line));
            }
            return false;
        }
        proof {
            assert forall|a: int, b: int| 0 <= a < b < i + 1 implies (#[trigger] hv[a]).line < (#[trigger] hv[b]).line by {
                if b == i && a < i - 1 {
                    assert(hv[a].line < hv[i - 1].line);
                }
            }
        }
        i = i + 1;
    }
    true
}

/// The lowest level number among the headings.
fn top_level_of(headings: &Vec<Heading>) -> (r: usize)
    requires
        headings@.len() > 0,
    ensures
        r as nat == top_level(headings_view(headings@)),
{
    let ghost hv = headings_view(headings@);
    let mut m = headings[0].level;
    let mut k: usize = 1;
    proof {
        assert(hv[0] == heading_v(headings@[0]));
        assert(hv.take(1).len() == 1);
        assert(hv.take(1)[0] == hv[0]);
    }
    while k < headings.len()
        invariant
            1 <= k <= headings@.len(),
            hv == headings_view(headings@),
            m as nat == top_level(hv.take(k as int)),
        decreases headings@.len() - k,
    {
        proof {
            assert(hv[k as int] == heading_v(headings@[k as int]));
            assert(hv.take(k as int + 1).drop_last() =~= hv.take(k as int));
            assert(hv.take(k as int + 1).last() == hv[k as int]);
        }
        if headings[k].level < m {
            m = headings[k].level;
        }
        k = k + 1;
    }
    proof {
        assert(hv.take(headings@.len() as int) =~= hv);
    }
    m
}

/// The chunks of a body split into lines, with its headings.
fn chunk_body(path: &str, lines: &Vec<Vec<char>>, headings: &Vec<Heading>, max: usize, offset: usize) -> (out: Vec<Chunk>)
    requires
        headings_ok(headings_view(headings@), lines@.len()),
        max > 0,
        lines@.len() + offset < usize::MAX,
    ensures
        chunks_view(out@) == body_chunks(path@, lines_v(lines@), headings_view(headings@), max as int, offset as int),
{
    let ghost hv = headings_view(headings@);
    let ghost lv = lines_v(lines@);
    let mut out: Vec<Chunk> = Vec::new();
    let none = String::new();
    let n = lines.len();
    if n == 0 {
        proof {
            assert(chunks_view(out@) =~= Seq::<ChunkV>::empty());
        }
        return out;
    }
    if headings.len() == 0 {
        emit_or_split(&mut out, path, lines, 1, n, none.as_str(), max, offset);
        proof {
            assert(chunks_view(out@) =~= emit_spec(path@, lv, 1, n as int, Seq::empty(), max as int, offset as int));
        }
        return out;
    }
    proof {
        assert(hv[0] == heading_v(headings@[0]));
    }
    if headings[0].line > 1 {
        emit_or_split(&mut out, path, lines, 1, headings[0].line - 1, none.as_str(), max, offset);
    }
    let ghost pre = chunks_view(out@);
    proof {
        assert(pre =~= if hv[0].line > 1 {
            emit_spec(path@, lv, 1, hv[0].line - 1, Seq::empty(), max as int, offset as int)
        } else {
            Seq::empty()
        });
        assert(forall|j: int| 0 <= j < headings@.len() ==> (#[trigger] hv[j]).line >= 1);
        assert(forall|j: int| 0 <= j < headings@.len() ==> (#[trigger] headings@[j]).line == hv[j].line);
    }
    let sec_end = section_ends(headings, n);
    let top = top_level_of(headings);
    let mut i: usize = 0;
    proof {
        assert(pre + Seq::<ChunkV>::empty() =~= pre);
    }
    while i < headings.len()
        invariant
            i <= headings@.len(),
            n == lines@.len(),
            hv == headings_view(headings@),
            lv == lines_v(lines@),
            none@ == Seq::<char>::empty(),
            headings_ok(hv, lines@.len()),
            sec_end@.len() == headings@.len(),
            forall|k: int| 0 <= k < sec_end@.len() ==> (#[trigger] sec_end@[k]) as int == section_end(hv, k, n as nat),
            max > 0,
            lines@.len() + offset < usize::MAX,
            top as nat == top_level(hv),
            chunks_view(out@) == pre + sections_of(
                path@,
                lv,
                hv,
                -1,
                level_indices(hv, i as int, top as nat),
                Seq::empty(),
                max as int,
                offset as int,
            ),
        decreases headings@.len() - i,
    {
        proof {
            assert(hv[i as int] == heading_v(headings@[i as int]));
        }
        let ghost ks = level_indices(hv, i as int, top as nat);
        if headings[i].level == top {
            chunk_section(&mut out, path, lines, headings, &sec_end, i, none.as_str(), max, offset);
            proof {
                assert(ks.push(i as int).drop_last() =~= ks);
                let prev = sections_of(path@, lv, hv, -1, ks, Seq::empty(), max as int, offset as int);
                let sec = section_spec(path@, lv, hv, i as int, Seq::empty(), max as int, offset as int);
                assert(sections_of(path@, lv, hv, -1, ks.push(i as int), Seq::empty(), max as int, offset as int) == prev + sec);
                assert(pre + prev + sec =~= pre + (prev + sec));
            }
        }
        i = i + 1;
    }
    out
}

/// The text that is split into chunks and the file line it starts on: the body
/// after the frontmatter, or the whole text where the frontmatter did not parse.
pub open spec fn chunk_source(text: Seq<char>, frontmatter_valid: bool) -> (Seq<char>, nat) {
    let (fm, body, start) = split_frontmatter(text);
    if fm is Some && !frontmatter_valid {
        (text, 1)
    } else {
        (body, start)
    }
}

/// Whether the headings reported for the body start on distinct lines, in
/// order, and the line numbers fit a `usize`.
pub open spec fn chunks_fit(text: Seq<char>, frontmatter_valid: bool) -> bool {
    let (body, start) = chunk_source(text, frontmatter_valid);
    &&& headings_ok(headings_of(body), str_lines(body).len())
    &&& str_lines(body).len() + start - 1 < usize::MAX
}

/// The chunks of a Markdown file.
pub open spec fn markdown_chunks(
    path: Seq<char>,
    text: Seq<char>,
    max: int,
    name: Option<&str>,
    description: Option<&str>,
    frontmatter_valid: bool,
) -> Seq<ChunkV> {
    let (body, start) = chunk_source(text, frontmatter_valid);
    with_prefix(
        body_chunks(path, str_lines(body), headings_of(body), max, start - 1),
        path,
        opt_text(name) + opt_text(description),
    )
}

/// Splits a Markdown file into chunks along its heading structure. The caller
/// says whether the frontmatter block, if any, parsed as YAML; where it did
/// not, the whole text is the body.
#[verifier::spinoff_prover]
#[verifier::rlimit(40)]
pub fn chunk_markdown(
    path: &str,
    text: &str,
    max_chunk_lines: usize,
    fm_name: Option<&str>,
    fm_description: Option<&str>,
    frontmatter_valid: bool,
) -> (r: Option<Vec<Chunk>>)
    requires
        max_chunk_lines > 0,
    ensures
        r is Some <==> chunks_fit(text@, frontmatter_valid),
        r matches Some(v) ==> chunks_view(v@) == markdown_chunks(
            path@,
            text@,
            max_chunk_lines as int,
            fm_name,
            fm_description,
            frontmatter_valid,
        ),
{
    let parsed = parse(text);
    let use_plain = parsed.frontmatter.is_some() && !frontmatter_valid;
    let start_line = if use_plain { 1 } else { parsed.body_start_line };
    let body: String = if use_plain { text.to_owned() } else { parsed.body };
    let ghost src = chunk_source(text@, frontmatter_valid);
    proof {
        assert(body@ == src.0);
        assert(start_line as nat == src.1);
        assert(start_line >= 1);
    }
    let offset = start_line - 1;
    let cs = chars_of(body.as_str());
    let lines = lines_of(cs.as_slice());
    let headings = find_headings(body.as_str());
    if !check_headings(&headings, lines.len()) {
        return None;
    }
    if offset >= usize::MAX - lines.len() {
        return None;
    }
    let mut out = chunk_body(path, &lines, &headings, max_chunk_lines, offset);
    let ghost chunks = chunks_view(out@);
    let mut prefix = String::new();
    match fm_name {
        Some(name) => {
            push_str(&mut prefix, name);
            push_str(&mut prefix, "\n");
        },
        None => {},
    }
    match fm_description {
        Some(desc) => {
            push_str(&mut prefix, desc);
            push_str(&mut prefix, "\n");
        },
        None => {},
    }
    proof {
        assert(prefix@ =~= opt_text(fm_name) + opt_text(fm_description));
    }
    if !prefix.as_str().is_empty() {
        if out.len() > 0 {
            let first = out.remove(0);
            let mut st = String::new();
            push_str(&mut st, prefix.as_str());
            push_str(&mut st, first.search_text.as_str());
            let c = Chunk {
                path: first.path,
                start_line: first.start_line,
                end_line: first.end_line,
                breadcrumb: first.breadcrumb,
                text: first.text,
                search_text: st,
            };
            let ghost cv = chunk_view(c);
            out.insert(0, c);
            proof {
                assert(cv == ChunkV { search_text: prefix@ + chunks[0].search_text, ..chunks[0] });
                assert(chunks_view(out@) =~= chunks.update(0, cv));
            }
        } else {
            let pc = chars_of(prefix.as_str());
            let k = trim_end_len(pc.as_slice());
            let kept = copy_chars(pc.as_slice(), 0, k);
            let st = string_of(kept.as_slice());
            let c = Chunk {
                path: path.to_owned(),
                start_line: 1,
                end_line: 1,
                breadcrumb: String::new(),
                text: String::new(),
                search_text: st,
            };
            let ghost cv = chunk_view(c);
            out.push(c);
            proof {
                assert(chunks_view(out@) =~= seq![cv]);
            }
        }
    }
    Some(out)
}

} // verus!
