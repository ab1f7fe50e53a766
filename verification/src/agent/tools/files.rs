//! Text file edits: every replacement is located in the original text, and a
//! batch applies only when each old text occurs exactly once and no two
//! replacements overlap.
use vstd::prelude::*;
use crate::text::{
    digits, occurs_at, find_first, first_at_or_after, absent_from, chars_of, find, find_from, copy_chars,
    string_of, push_str, push_decimal, utf8_text,
};

verus! {

/// One `oldText` → `newText` replacement.
#[derive(Debug, Clone)]
pub struct Replacement {
    pub old_text: String,
    pub new_text: String,
}

pub open spec fn edits_view(v: Seq<Replacement>) -> Seq<(Seq<char>, Seq<char>)> {
    v.map_values(|e: Replacement| (e.old_text@, e.new_text@))
}

/// `old` occurs at `at` and nowhere else.
pub open spec fn unique_at(s: Seq<char>, old: Seq<char>, at: int) -> bool {
    forall|j: int| occurs_at(s, old, j) ==> j == at
}

pub open spec fn edit_message(index: nat, what: Seq<char>) -> Seq<char> {
    "edits["@ + digits(index) + "].oldText "@ + what
}

/// Why the edit at `index` cannot be located, if it cannot.
pub open spec fn edit_error(original: Seq<char>, old: Seq<char>, index: nat) -> Option<Seq<char>> {
    if old.len() == 0 {
        Some(edit_message(index, "must not be empty"@))
    } else {
        match find_first(original, old) {
            None => Some(edit_message(index, "was not found; read the file again"@)),
            Some(s) => if !unique_at(original, old, s) {
                Some(edit_message(index, "is not unique; include more surrounding text"@))
            } else {
                None
            },
        }
    }
}

/// The first edit, in order, that cannot be located.
pub open spec fn first_edit_error(original: Seq<char>, edits: Seq<(Seq<char>, Seq<char>)>) -> Option<Seq<char>>
    decreases edits.len(),
{
    if edits.len() == 0 {
        None
    } else {
        match first_edit_error(original, edits.drop_last()) {
            Some(e) => Some(e),
            None => edit_error(original, edits.last().0, (edits.len() - 1) as nat),
        }
    }
}

/// The span each edit replaces in the original, with its new text.
pub open spec fn ranges_of(original: Seq<char>, edits: Seq<(Seq<char>, Seq<char>)>) -> Seq<(int, int, Seq<char>)> {
    Seq::new(
        edits.len(),
        |i: int|
            {
                let s = find_first(original, edits[i].0)->Some_0;
                (s, s + edits[i].0.len(), edits[i].1)
            },
    )
}

pub open spec fn overlapping(a: (int, int, Seq<char>), b: (int, int, Seq<char>)) -> bool {
    a.0 < b.1 && b.0 < a.1
}

pub open spec fn disjoint(rs: Seq<(int, int, Seq<char>)>) -> bool {
    forall|i: int, j: int| 0 <= i < rs.len() && 0 <= j < rs.len() && i != j ==> !overlapping(#[trigger] rs[i], #[trigger] rs[j])
}

/// The original from position `p` on, each span replaced by its new text.
pub open spec fn splice_from(original: Seq<char>, rs: Seq<(int, int, Seq<char>)>, p: int) -> Seq<char>
    decreases original.len() - p,
{
    if p < 0 || p >= original.len() {
        Seq::empty()
    } else if exists|i: int| 0 <= i < rs.len() && (#[trigger] rs[i]).0 == p && p < rs[i].1 <= original.len() {
        let i = choose|i: int| 0 <= i < rs.len() && (#[trigger] rs[i]).0 == p && p < rs[i].1 <= original.len();
        rs[i].2 + splice_from(original, rs, rs[i].1)
    } else {
        seq![original[p]] + splice_from(original, rs, p + 1)
    }
}

pub open spec fn overlap_error() -> Seq<char> {
    "edits overlap; merge overlapping changes into one replacement"@
}

/// The edited text, or why the batch is refused.
pub open spec fn edited(original: Seq<char>, edits: Seq<(Seq<char>, Seq<char>)>) -> Result<Seq<char>, Seq<char>> {
    if edits.len() == 0 {
        Err("edits must contain at least one replacement"@)
    } else {
        match first_edit_error(original, edits) {
            Some(e) => Err(e),
            None => {
                let rs = ranges_of(original, edits);
                if !disjoint(rs) {
                    Err(overlap_error())
                } else {
                    Ok(splice_from(original, rs, 0))
                }
            },
        }
    }
}

pub open spec fn result_view(r: Result<String, String>) -> Result<Seq<char>, Seq<char>> {
    match r {
        Ok(s) => Ok(s@),
        Err(e) => Err(e@),
    }
}

fn message(index: usize, what: &str) -> (r: String)
    ensures
        r@ == edit_message(index as nat, what@),
{
    let mut m = "edits[".to_owned();
    push_decimal(&mut m, index as u64);
    push_str(&mut m, "].oldText ");
    push_str(&mut m, what);
    m
}

proof fn lemma_first_error_prefix(original: Seq<char>, edits: Seq<(Seq<char>, Seq<char>)>, k: int)
    requires
        0 <= k <= edits.len(),
        first_edit_error(original, edits.take(k)) is Some,
    ensures
        first_edit_error(original, edits) == first_edit_error(original, edits.take(k)),
    decreases edits.len() - k,
{
    if k < edits.len() {
        assert(edits.take(k + 1).drop_last() =~= edits.take(k));
        lemma_first_error_prefix(original, edits, k + 1);
    } else {
        assert(edits.take(k) =~= edits);
    }
}

/// Walking through a stretch where no span starts copies the original.
proof fn lemma_splice_plain(original: Seq<char>, rs: Seq<(int, int, Seq<char>)>, p: int, q: int)
    requires
        0 <= p <= q <= original.len(),
        forall|i: int| 0 <= i < rs.len() ==> !(p <= (#[trigger] rs[i]).0 < q),
    ensures
        splice_from(original, rs, p) == original.subrange(p, q) + splice_from(original, rs, q),
    decreases q - p,
{
    if p < q {
        assert(!exists|i: int| 0 <= i < rs.len() && (#[trigger] rs[i]).0 == p && p < rs[i].1 <= original.len());
        lemma_splice_plain(original, rs, p + 1, q);
        assert(original.subrange(p, q) =~= seq![original[p]] + original.subrange(p + 1, q));
    } else {
        assert(original.subrange(p, q) =~= Seq::<char>::empty());
    }
}

/// At the start of a span, the span's new text comes next.
proof fn lemma_splice_span(original: Seq<char>, rs: Seq<(int, int, Seq<char>)>, k: int)
    requires
        0 <= k < rs.len(),
        disjoint(rs),
        0 <= rs[k].0 < rs[k].1 <= original.len(),
    ensures
        splice_from(original, rs, rs[k].0) == rs[k].2 + splice_from(original, rs, rs[k].1),
{
    let p = rs[k].0;
    assert(rs[k].0 == p && p < rs[k].1 <= original.len());
    let i = choose|i: int| 0 <= i < rs.len() && (#[trigger] rs[i]).0 == p && p < rs[i].1 <= original.len();
    if i != k {
        assert(overlapping(rs[i], rs[k]));
    }
}

/// The located span of each edit, in edit order.
fn locate_all(cs: &Vec<char>, edits: &[Replacement]) -> (r: Result<Vec<(usize, usize)>, String>)
    ensures
        match r {
            Err(e) => first_edit_error(cs@, edits_view(edits@)) == Some(e@),
            Ok(v) => first_edit_error(cs@, edits_view(edits@)) is None && v@.len() == edits@.len() && forall|i: int|
                0 <= i < v@.len() ==> {
                    let rs = ranges_of(cs@, edits_view(edits@));
                    &&& (#[trigger] v@[i]).0 as int == rs[i].0
                    &&& v@[i].1 as int == rs[i].1
                    &&& 0 <= rs[i].0 < rs[i].1 <= cs@.len()
                },
        },
{
    let ghost ev = edits_view(edits@);
    let mut out: Vec<(usize, usize)> = Vec::new();
    let mut i: usize = 0;
    while i < edits.len()
        invariant
            i <= edits@.len(),
            ev == edits_view(edits@),
            first_edit_error(cs@, ev.take(i as int)) is None,
            out@.len() == i,
            forall|j: int|
                0 <= j < i ==> {
                    let rs = ranges_of(cs@, ev);
                    &&& (#[trigger] out@[j]).0 as int == rs[j].0
                    &&& out@[j].1 as int == rs[j].1
                    &&& 0 <= rs[j].0 < rs[j].1 <= cs@.len()
                },
        decreases edits@.len() - i,
    {
        proof {
            assert(ev.take(i as int + 1).drop_last() =~= ev.take(i as int));
            assert(ev.take(i as int + 1).last() == ev[i as int]);
        }
        let old = chars_of(edits[i].old_text.as_str());
        if old.len() == 0 {
            proof {
                lemma_first_error_prefix(cs@, ev, i as int + 1);
            }
            return Err(message(i, "must not be empty"));
        }
        let start = match find(cs.as_slice(), old.as_slice()) {
            Some(s) => s,
            None => {
                proof {
                    lemma_first_error_prefix(cs@, ev, i as int + 1);
                }
                return Err(message(i, "was not found; read the file again"));
            },
        };
        let total = cs.len();
        proof {
            let c = choose|k: int| first_at_or_after(cs@, old@, 0, k);
            assert(first_at_or_after(cs@, old@, 0, c));
            assert(c == start);
            assert(start + old@.len() <= total);
        }
        let again = find_from(cs.as_slice(), old.as_slice(), start + 1);
        if again.is_some() {
            proof {
                let k = again.unwrap() as int;
                assert(occurs_at(cs@, old@, k));
                assert(!unique_at(cs@, old@, start as int));
                lemma_first_error_prefix(cs@, ev, i as int + 1);
            }
            return Err(message(i, "is not unique; include more surrounding text"));
        }
        proof {
            assert forall|j: int| occurs_at(cs@, old@, j) implies j == start by {
                if j < start {
                    let c = choose|k: int| first_at_or_after(cs@, old@, 0, k);
                    assert(first_at_or_after(cs@, old@, 0, c));
                } else if j > start {
                    assert(absent_from(cs@, old@, start + 1));
                }
            }
            assert(unique_at(cs@, old@, start as int));
        }
        out.push((start, start + old.len()));
        i = i + 1;
    }
    proof {
        assert(ev.take(edits@.len() as int) =~= ev);
    }
    Ok(out)
}

/// Applies a batch of replacements to the original text, all or nothing.
pub fn apply_edits(original: &str, edits: &[Replacement]) -> (r: Result<String, String>)
    ensures
        result_view(r) == edited(original@, edits_view(edits@)),
{
    if edits.len() == 0 {
        return Err("edits must contain at least one replacement".to_owned());
    }
    let cs = chars_of(original);
    let spans = match locate_all(&cs, edits) {
        Ok(v) => v,
        Err(e) => {
            return Err(e);
        },
    };
    let ghost ev = edits_view(edits@);
    let ghost rs = ranges_of(cs@, ev);
    let n = spans.len();
    proof {
        assert forall|i: int| 0 <= i < n implies 0 <= (#[trigger] rs[i]).0 < rs[i].1 <= cs@.len() by {
            assert(spans@[i].0 as int == rs[i].0);
        }
    }
    // Any two overlapping spans refuse the whole batch.
    let mut a: usize = 0;
    while a < n
        invariant
            n == spans@.len() == rs.len(),
            n == edits@.len(),
            edits@.len() > 0,
            ev == edits_view(edits@),
            cs@ == original@,
            first_edit_error(cs@, ev) is None,
            forall|i: int| 0 <= i < n ==> 0 <= (#[trigger] rs[i]).0 < rs[i].1 <= cs@.len(),
            a <= n,
            rs == ranges_of(cs@, ev),
            forall|i: int| 0 <= i < n ==> (#[trigger] spans@[i]).0 as int == rs[i].0 && spans@[i].1 as int == rs[i].1,
            forall|i: int, j: int| 0 <= i < a && 0 <= j < n && i != j ==> !overlapping(#[trigger] rs[i], #[trigger] rs[j]),
        decreases n - a,
    {
        let mut b: usize = 0;
        while b < n
            invariant
                n == spans@.len() == rs.len(),
                n == edits@.len(),
                edits@.len() > 0,
                ev == edits_view(edits@),
                cs@ == original@,
                rs == ranges_of(cs@, ev),
                first_edit_error(cs@, ev) is None,
                a < n,
                b <= n,
                forall|i: int| 0 <= i < n ==> (#[trigger] spans@[i]).0 as int == rs[i].0 && spans@[i].1 as int == rs[i].1,
                forall|j: int| 0 <= j < b && j != a ==> !overlapping(rs[a as int], #[trigger] rs[j]),
            decreases n - b,
        {
            if a != b && spans[a].0 < spans[b].1 && spans[b].0 < spans[a].1 {
                proof {
                    assert(overlapping(rs[a as int], rs[b as int]));
                    assert(!disjoint(rs));
                }
                return Err("edits overlap; merge overlapping changes into one replacement".to_owned());
            }
            b = b + 1;
        }
        a = a + 1;
    }
    proof {
        assert(disjoint(rs));
    }
    // Copy the original, replacing each span in order of position.
    let mut out = String::new();
    let mut p: usize = 0;
    loop
        invariant
            n == spans@.len() == rs.len(),
            n == edits@.len(),
            edits@.len() > 0,
            ev == edits_view(edits@),
            cs@ == original@,
            first_edit_error(cs@, ev) is None,
            forall|i: int| 0 <= i < n ==> 0 <= (#[trigger] rs[i]).0 < rs[i].1 <= cs@.len(),
            rs == ranges_of(cs@, ev),
            disjoint(rs),
            p <= cs@.len(),
            forall|i: int| 0 <= i < n ==> (#[trigger] spans@[i]).0 as int == rs[i].0 && spans@[i].1 as int == rs[i].1,
            forall|i: int| 0 <= i < n ==> 0 <= (#[trigger] rs[i]).0 < rs[i].1 <= cs@.len(),
            forall|i: int| 0 <= i < n ==> !((#[trigger] rs[i]).0 < p < rs[i].1),
            splice_from(cs@, rs, 0) == out@ + splice_from(cs@, rs, p as int),
        decreases cs@.len() - p,
    {
        // The next span at or after p.
        let mut best: usize = n;
        let mut k: usize = 0;
        while k < n
            invariant
                n == spans@.len() == rs.len(),
                k <= n,
                forall|i: int| 0 <= i < n ==> (#[trigger] spans@[i]).0 as int == rs[i].0 && spans@[i].1 as int == rs[i].1,
                best == n || (best < n && p <= spans@[best as int].0),
                forall|i: int| 0 <= i < k && p <= (#[trigger] rs[i]).0 ==> best < n && rs[best as int].0 <= rs[i].0,
            decreases n - k,
        {
            if p <= spans[k].0 && (best == n || spans[k].0 < spans[best].0) {
                best = k;
            }
            k = k + 1;
        }
        if best == n {
            let rest = copy_chars(cs.as_slice(), p, cs.len());
            let tail = string_of(rest.as_slice());
            push_str(&mut out, tail.as_str());
            proof {
                lemma_splice_plain(cs@, rs, p as int, cs@.len() as int);
                assert(splice_from(cs@, rs, cs@.len() as int) == Seq::<char>::empty());
                assert(out@ =~= splice_from(cs@, rs, 0));
            }
            return Ok(out);
        }
        let (s, e) = spans[best];
        let before = copy_chars(cs.as_slice(), p, s);
        let piece = string_of(before.as_slice());
        push_str(&mut out, piece.as_str());
        push_str(&mut out, edits[best].new_text.as_str());
        proof {
            assert forall|i: int| 0 <= i < n implies !(p <= (#[trigger] rs[i]).0 < s) by {
                if p <= rs[i].0 {
                    assert(rs[best as int].0 <= rs[i].0);
                }
            }
            lemma_splice_plain(cs@, rs, p as int, s as int);
            lemma_splice_span(cs@, rs, best as int);
            assert(rs[best as int].2 == edits@[best as int].new_text@);
            assert forall|i: int| 0 <= i < n implies !((#[trigger] rs[i]).0 < e < rs[i].1) by {
                if i != best && rs[i].0 < e && e < rs[i].1 {
                    assert(overlapping(rs[i], rs[best as int]));
                }
            }
        }
        p = e;
    }
}


// ---------------------------------------------------------------------------
// Reading a window of lines.

/// Bytes of file text that one read returns at most.
pub const MAX_READ_BYTES: usize = 32768;
/// Lines that one read returns at most.
pub const MAX_READ_LINES: usize = 2000;


/// The lines of a file read so far: the first line to return, how many may be
/// returned, the lines seen, the lines returned, their bytes and their text.
pub struct ReadWindow {
    start: usize,
    limit: usize,
    number: usize,
    count: usize,
    bytes: usize,
    output: String,
}

pub struct ReadWindowV {
    pub start: nat,
    pub limit: nat,
    pub number: nat,
    pub count: nat,
    pub bytes: nat,
    pub output: Seq<char>,
}

impl View for ReadWindow {
    type V = ReadWindowV;

    closed spec fn view(&self) -> ReadWindowV {
        ReadWindowV {
            start: self.start as nat,
            limit: self.limit as nat,
            number: self.number as nat,
            count: self.count as nat,
            bytes: self.bytes as nat,
            output: self.output@,
        }
    }
}

/// What a read does after a line.
pub enum ReadStep {
    /// Read the next line.
    More,
    /// The read is over, with the tool's answer or error.
    Done(Result<String, String>),
}

pub open spec fn step_view(r: ReadStep) -> Option<Result<Seq<char>, Seq<char>>> {
    match r {
        ReadStep::More => None,
        ReadStep::Done(Ok(t)) => Some(Ok(t@)),
        ReadStep::Done(Err(e)) => Some(Err(e@)),
    }
}

/// The answer when lines remain: where to continue.
pub open spec fn more_text(path: Seq<char>, start: nat, number: nat, output: Seq<char>) -> Seq<char> {
    path + "\n[Lines "@ + digits(start) + "-"@ + digits((number - 1) as nat) + "; more content: call read with offset="@
        + digits(number) + "]\n"@ + output
}

pub open spec fn too_long_text(number: nat) -> Seq<char> {
    "line "@ + digits(number) + " exceeds 32768 bytes; use bash for a bounded extraction"@
}

pub open spec fn invalid_utf8_text() -> Seq<char> {
    "read supports UTF-8 text only; this file contains invalid UTF-8"@
}

/// The effect of one more line of `n` bytes (the line with its newline, or the
/// first 32 769 bytes of a longer one).
pub open spec fn line_step(w: ReadWindowV, path: Seq<char>, line: Seq<u8>) -> (ReadWindowV, Option<Result<Seq<char>, Seq<char>>>) {
    let n = line.len();
    let number = w.number + 1;
    let seen = ReadWindowV { number, ..w };
    if n > MAX_READ_BYTES {
        if w.count > 0 {
            (seen, Some(Ok(more_text(path, w.start, number, w.output))))
        } else {
            (seen, Some(Err(too_long_text(number))))
        }
    } else if number < w.start {
        (seen, None)
    } else if w.bytes + n > MAX_READ_BYTES || w.count == w.limit {
        (seen, Some(Ok(more_text(path, w.start, number, w.output))))
    } else if !vstd::utf8::valid_utf8(line) {
        (seen, Some(Err(invalid_utf8_text())))
    } else {
        (
            ReadWindowV {
                number,
                count: w.count + 1,
                bytes: w.bytes + n,
                output: w.output + vstd::utf8::decode_utf8(line),
                ..w
            },
            None,
        )
    }
}

/// The answer at the end of the file.
pub open spec fn end_result(w: ReadWindowV, path: Seq<char>) -> Result<Seq<char>, Seq<char>> {
    if w.number == 0 && w.start == 1 {
        Ok(path + ": empty file"@)
    } else if w.start > w.number {
        Err("offset "@ + digits(w.start) + " is beyond end of file ("@ + digits(w.number) + " lines)"@)
    } else {
        Ok(path + "\n[Lines "@ + digits(w.start) + "-"@ + digits(w.number) + "; end of file]\n"@ + w.output)
    }
}

impl ReadWindow {
    pub closed spec fn wf(&self) -> bool {
        &&& self.start >= 1
        &&& self.bytes <= MAX_READ_BYTES
        &&& self.count <= self.limit <= MAX_READ_LINES
    }

    /// A read from line `offset` (1-based, default 1) of at most `limit` lines
    /// (default and maximum 2000).
    pub fn new(offset: Option<usize>, limit: Option<usize>) -> (r: Self)
        requires
            offset matches Some(o) ==> o > 0,
            limit matches Some(l) ==> l > 0,
        ensures
            r.wf(),
            r@.start == (match offset { Some(o) => o as nat, None => 1 }),
            r@.limit == (match limit {
                Some(l) => if l < MAX_READ_LINES { l as nat } else { MAX_READ_LINES as nat },
                None => MAX_READ_LINES as nat,
            }),
            r@.number == 0,
            r@.count == 0,
            r@.bytes == 0,
            r@.output == Seq::<char>::empty(),
    {
        let start = match offset {
            Some(o) => o,
            None => 1,
        };
        let limit = match limit {
            Some(l) => if l < MAX_READ_LINES { l } else { MAX_READ_LINES },
            None => MAX_READ_LINES,
        };
        ReadWindow { start, limit, number: 0, count: 0, bytes: 0, output: String::new() }
    }

    /// Takes one more line of the file; `line` is what one bounded read returned.
    pub fn line(&mut self, path: &str, line: &[u8]) -> (r: ReadStep)
        requires
            old(self).wf(),
            line@.len() > 0,
            old(self)@.number < usize::MAX,
        ensures
            final(self).wf(),
            (final(self)@, step_view(r)) == line_step(old(self)@, path@, line@),
    {
        let n = line.len();
        self.number = self.number + 1;
        if n > MAX_READ_BYTES {
            if self.count > 0 {
                return ReadStep::Done(Ok(self.more(path)));
            }
            let mut e = String::new();
            push_str(&mut e, "line ");
            push_decimal(&mut e, self.number as u64);
            push_str(&mut e, " exceeds 32768 bytes; use bash for a bounded extraction");
            return ReadStep::Done(Err(e));
        }
        if self.number < self.start {
            return ReadStep::More;
        }
        if self.bytes + n > MAX_READ_BYTES || self.count == self.limit {
            return ReadStep::Done(Ok(self.more(path)));
        }
        match utf8_text(line) {
            None => ReadStep::Done(Err("read supports UTF-8 text only; this file contains invalid UTF-8".to_owned())),
            Some(text) => {
                push_str(&mut self.output, text.as_str());
                self.count = self.count + 1;
                self.bytes = self.bytes + n;
                ReadStep::More
            },
        }
    }

    fn more(&self, path: &str) -> (r: String)
        requires
            self.number >= 1,
        ensures
            r@ == more_text(path@, self.start as nat, self.number as nat, self.output@),
    {
        let mut t = String::new();
        push_str(&mut t, path);
        push_str(&mut t, "\n[Lines ");
        push_decimal(&mut t, self.start as u64);
        push_str(&mut t, "-");
        push_decimal(&mut t, (self.number - 1) as u64);
        push_str(&mut t, "; more content: call read with offset=");
        push_decimal(&mut t, self.number as u64);
        push_str(&mut t, "]\n");
        push_str(&mut t, self.output.as_str());
        proof {
            assert(t@ =~= more_text(path@, self.start as nat, self.number as nat, self.output@));
        }
        t
    }

    /// The answer once the file has no more lines.
    pub fn end(&self, path: &str) -> (r: Result<String, String>)
        requires
            self.wf(),
        ensures
            result_view(r) == end_result(self@, path@),
    {
        if self.number == 0 && self.start == 1 {
            let mut t = String::new();
            push_str(&mut t, path);
            push_str(&mut t, ": empty file");
            return Ok(t);
        }
        if self.start > self.number {
            let mut e = String::new();
            push_str(&mut e, "offset ");
            push_decimal(&mut e, self.start as u64);
            push_str(&mut e, " is beyond end of file (");
            push_decimal(&mut e, self.number as u64);
            push_str(&mut e, " lines)");
            proof {
                assert(e@ =~= "offset "@ + digits(self.start as nat) + " is beyond end of file ("@ + digits(self.number as nat)
                    + " lines)"@);
            }
            return Err(e);
        }
        let mut t = String::new();
        push_str(&mut t, path);
        push_str(&mut t, "\n[Lines ");
        push_decimal(&mut t, self.start as u64);
        push_str(&mut t, "-");
        push_decimal(&mut t, self.number as u64);
        push_str(&mut t, "; end of file]\n");
        push_str(&mut t, self.output.as_str());
        proof {
            assert(t@ =~= path@ + "\n[Lines "@ + digits(self.start as nat) + "-"@ + digits(self.number as nat) + "; end of file]\n"@
                + self.output@);
        }
        Ok(t)
    }
}

/// The answer of a whole read of a file given as its lines: each line goes
/// through `line_step` until one ends the read, and a read that takes every line
/// ends with `end_result`.
pub open spec fn read_lines(w: ReadWindowV, path: Seq<char>, lines: Seq<Seq<u8>>) -> Result<Seq<char>, Seq<char>>
    decreases lines.len(),
{
    if lines.len() == 0 {
        end_result(w, path)
    } else {
        let (w1, r) = line_step(w, path, lines[0]);
        match r {
            Some(answer) => answer,
            None => read_lines(w1, path, lines.drop_first()),
        }
    }
}

/// A fresh read from line `start` of at most `limit` lines.
pub open spec fn fresh_window(start: nat, limit: nat) -> ReadWindowV {
    ReadWindowV { start, limit, number: 0, count: 0, bytes: 0, output: Seq::empty() }
}

/// The bytes of some lines.
pub open spec fn total_bytes(ls: Seq<Seq<u8>>) -> nat
    decreases ls.len(),
{
    if ls.len() == 0 {
        0
    } else {
        total_bytes(ls.drop_last()) + ls.last().len()
    }
}

/// The text of some lines, one after the other.
pub open spec fn lines_text(ls: Seq<Seq<u8>>) -> Seq<char>
    decreases ls.len(),
{
    if ls.len() == 0 {
        Seq::empty()
    } else {
        lines_text(ls.drop_last()) + vstd::utf8::decode_utf8(ls.last())
    }
}

proof fn lemma_total_bytes_prefix(ls: Seq<Seq<u8>>, j: int)
    requires
        0 <= j <= ls.len(),
    ensures
        total_bytes(ls.take(j)) <= total_bytes(ls),
    decreases ls.len(),
{
    if j < ls.len() {
        assert(ls.take(j) =~= ls.drop_last().take(j));
        lemma_total_bytes_prefix(ls.drop_last(), j);
    } else {
        assert(ls.take(j) =~= ls);
    }
}

/// The read from line `k` on, with the window as the first `k` lines left it.
#[verifier::rlimit(60)]
proof fn lemma_read_from(path: Seq<char>, o: nat, l: nat, lines: Seq<Seq<u8>>, k: nat, w: ReadWindowV)
    requires
        1 <= o,
        1 <= l,
        o + l - 1 <= lines.len(),
        forall|i: int| 0 <= i < o + l - 1 ==> 0 < (#[trigger] lines[i]).len() <= MAX_READ_BYTES,
        forall|i: int| o - 1 <= i < o + l - 1 ==> vstd::utf8::valid_utf8(#[trigger] lines[i]),
        total_bytes(lines.subrange(o - 1, o + l - 1)) <= MAX_READ_BYTES,
        k <= lines.len(),
        k <= o + l - 1,
        w.start == o,
        w.limit == l,
        w.number == k,
        k <= o - 1 ==> w.count == 0 && w.bytes == 0 && w.output == Seq::<char>::empty(),
        k > o - 1 ==> {
            &&& w.count == k - (o - 1)
            &&& w.bytes == total_bytes(lines.subrange(o - 1, k as int))
            &&& w.output == lines_text(lines.subrange(o - 1, k as int))
        },
    ensures
        read_lines(w, path, lines.skip(k as int)) == Ok::<Seq<char>, Seq<char>>(
            path + "\n[Lines "@ + digits(o) + "-"@ + digits((o + l - 1) as nat) + (if lines.len() == o + l - 1 {
                "; end of file]\n"@
            } else {
                "; more content: call read with offset="@ + digits(o + l) + "]\n"@
            }) + lines_text(lines.subrange(o - 1, o + l - 1)),
        ),
    decreases lines.len() - k,
{
    let rest = lines.skip(k as int);
    let window = lines.subrange(o - 1, o + l - 1);
    if k == o + l - 1 {
        assert(w.output == lines_text(window));
        let head = path + "\n[Lines "@ + digits(o) + "-"@ + digits((o + l - 1) as nat);
        if lines.len() == o + l - 1 {
            assert(rest.len() == 0);
            assert(read_lines(w, path, rest) == end_result(w, path));
            assert(end_result(w, path) == Ok::<Seq<char>, Seq<char>>(head + "; end of file]\n"@ + w.output)) by {
                assert(path + "\n[Lines "@ + digits(w.start) + "-"@ + digits(w.number) + "; end of file]\n"@ + w.output
                    =~= head + "; end of file]\n"@ + w.output);
            }
            assert(read_lines(w, path, rest) == Ok::<Seq<char>, Seq<char>>(head + "; end of file]\n"@ + lines_text(window)));
        } else {
            assert(rest[0] == lines[k as int]);
            assert(w.count == l);
            assert(read_lines(w, path, rest) == line_step(w, path, rest[0]).1->Some_0);
            assert(((k + 1) - 1) as nat == (o + l - 1) as nat);
            assert(line_step(w, path, rest[0]).1->Some_0 == Ok::<Seq<char>, Seq<char>>(
                head + "; more content: call read with offset="@ + digits(o + l) + "]\n"@ + w.output)) by {
                assert(more_text(path, w.start, (k + 1) as nat, w.output) =~= head
                    + "; more content: call read with offset="@ + digits(o + l) + "]\n"@ + w.output);
            }
            assert(read_lines(w, path, rest) == Ok::<Seq<char>, Seq<char>>(head + "; more content: call read with offset="@ + digits(o + l) + "]\n"@ + lines_text(window)));
            assert(lines.len() != o + l - 1);
            assert((if lines.len() == o + l - 1 { "; end of file]\n"@ } else { "; more content: call read with offset="@ + digits(o + l) + "]\n"@ })
                == "; more content: call read with offset="@ + digits(o + l) + "]\n"@);
            assert(head + "; more content: call read with offset="@ + digits(o + l) + "]\n"@ + lines_text(window) ==
                path + "\n[Lines "@ + digits(o) + "-"@ + digits((o + l - 1) as nat) + ("; more content: call read with offset="@ + digits(o + l) + "]\n"@) + lines_text(lines.subrange(o - 1, o + l - 1)));
        }
    } else {
        assert(rest[0] == lines[k as int]);
        assert(rest.drop_first() =~= lines.skip(k + 1 as int));
        let line = lines[k as int];
        let (w1, r) = line_step(w, path, line);
        if k + 1 < o {
            assert(r is None);
            assert(read_lines(w, path, rest) == read_lines(w1, path, lines.skip(k + 1 as int)));
            lemma_read_from(path, o, l, lines, k + 1, w1);
        } else {
            let now = lines.subrange(o - 1, k + 1 as int);
            if k == o - 1 {
                assert(lines.subrange(o - 1, k as int) =~= Seq::<Seq<u8>>::empty());
            }
            assert(now.drop_last() =~= lines.subrange(o - 1, k as int));
            assert(now.last() == line);
            assert(now =~= window.take(k + 1 - (o - 1)));
            lemma_total_bytes_prefix(window, k + 1 - (o - 1));
            assert(total_bytes(now) == total_bytes(now.drop_last()) + now.last().len());
            assert(lines_text(now) == lines_text(now.drop_last()) + vstd::utf8::decode_utf8(now.last()));
            assert(w.bytes + line.len() == total_bytes(now));
            assert(r is None);
            assert(w1.output == lines_text(now));
            assert(read_lines(w, path, rest) == read_lines(w1, path, lines.skip(k + 1 as int)));
            lemma_read_from(path, o, l, lines, k + 1, w1);
        }
    }
}

/// A read with offset `o` and limit `l` over a file that has at least the lines
/// `o` to `o + l - 1`, all within the byte bounds and the window's lines valid
/// UTF-8, returns exactly those `l` lines, in order, under a header that names
/// them; it says where to continue when the file has more lines, and that the
/// file ended otherwise.
pub proof fn law_read_window(path: Seq<char>, o: nat, l: nat, lines: Seq<Seq<u8>>)
    requires
        1 <= o,
        1 <= l,
        o + l - 1 <= lines.len(),
        forall|i: int| 0 <= i < o + l - 1 ==> 0 < (#[trigger] lines[i]).len() <= MAX_READ_BYTES,
        forall|i: int| o - 1 <= i < o + l - 1 ==> vstd::utf8::valid_utf8(#[trigger] lines[i]),
        total_bytes(lines.subrange(o - 1, o + l - 1)) <= MAX_READ_BYTES,
    ensures
        read_lines(fresh_window(o, l), path, lines) == Ok::<Seq<char>, Seq<char>>(
            path + "\n[Lines "@ + digits(o) + "-"@ + digits((o + l - 1) as nat) + (if lines.len() == o + l - 1 {
                "; end of file]\n"@
            } else {
                "; more content: call read with offset="@ + digits(o + l) + "]\n"@
            }) + lines_text(lines.subrange(o - 1, o + l - 1)),
        ),
{
    assert(lines.skip(0) =~= lines);
    lemma_read_from(path, o, l, lines, 0, fresh_window(o, l));
}

proof fn lemma_skip_to_end(path: Seq<char>, o: nat, l: nat, lines: Seq<Seq<u8>>, k: nat, w: ReadWindowV)
    requires
        1 <= o,
        lines.len() < o,
        forall|i: int| 0 <= i < lines.len() ==> 0 < (#[trigger] lines[i]).len() <= MAX_READ_BYTES,
        k <= lines.len(),
        w == (ReadWindowV { number: k, ..fresh_window(o, l) }),
    ensures
        read_lines(w, path, lines.skip(k as int)) == end_result(ReadWindowV { number: lines.len(), ..fresh_window(o, l) }, path),
    decreases lines.len() - k,
{
    if k < lines.len() {
        let rest = lines.skip(k as int);
        assert(rest[0] == lines[k as int]);
        assert(rest.drop_first() =~= lines.skip(k + 1 as int));
        lemma_skip_to_end(path, o, l, lines, k + 1, ReadWindowV { number: k + 1, ..fresh_window(o, l) });
    } else {
        assert(lines.skip(k as int).len() == 0);
    }
}

/// A read whose offset lies past the last line of a file of short lines returns
/// nothing of the file: an empty file read from the start says so, and any other
/// such read is refused with the offset and the number of lines.
pub proof fn law_read_past_end(path: Seq<char>, o: nat, l: nat, lines: Seq<Seq<u8>>)
    requires
        1 <= o,
        lines.len() < o,
        forall|i: int| 0 <= i < lines.len() ==> 0 < (#[trigger] lines[i]).len() <= MAX_READ_BYTES,
    ensures
        read_lines(fresh_window(o, l), path, lines) == if lines.len() == 0 && o == 1 {
            Ok::<Seq<char>, Seq<char>>(path + ": empty file"@)
        } else {
            Err::<Seq<char>, Seq<char>>(
                "offset "@ + digits(o) + " is beyond end of file ("@ + digits(lines.len()) + " lines)"@,
            )
        },
{
    assert(lines.skip(0) =~= lines);
    assert(fresh_window(o, l) == (ReadWindowV { number: 0, ..fresh_window(o, l) }));
    lemma_skip_to_end(path, o, l, lines, 0, fresh_window(o, l));
}

proof fn lemma_skip_to(path: Seq<char>, o: nat, l: nat, lines: Seq<Seq<u8>>, b: nat, k: nat)
    requires
        1 <= o,
        k <= b,
        b < lines.len(),
        b <= o - 1,
        forall|i: int| 0 <= i < b ==> 0 < (#[trigger] lines[i]).len() <= MAX_READ_BYTES,
    ensures
        read_lines(ReadWindowV { number: k, ..fresh_window(o, l) }, path, lines.skip(k as int)) == read_lines(
            ReadWindowV { number: b, ..fresh_window(o, l) },
            path,
            lines.skip(b as int),
        ),
    decreases b - k,
{
    if k < b {
        let rest = lines.skip(k as int);
        assert(rest[0] == lines[k as int]);
        assert(rest.drop_first() =~= lines.skip(k + 1 as int));
        lemma_skip_to(path, o, l, lines, b, k + 1);
    }
}

/// A read stops at the first line longer than the byte bound when no line has
/// been returned yet: if every line before it is short and it comes no later than
/// the offset, the read is refused naming that line.
pub proof fn law_read_refuses_long_line(path: Seq<char>, o: nat, l: nat, lines: Seq<Seq<u8>>, b: nat)
    requires
        1 <= o,
        b < lines.len(),
        b <= o - 1,
        forall|i: int| 0 <= i < b ==> 0 < (#[trigger] lines[i]).len() <= MAX_READ_BYTES,
        lines[b as int].len() > MAX_READ_BYTES,
    ensures
        read_lines(fresh_window(o, l), path, lines) == Err::<Seq<char>, Seq<char>>(too_long_text(b + 1)),
{
    assert(lines.skip(0) =~= lines);
    assert(fresh_window(o, l) == (ReadWindowV { number: 0, ..fresh_window(o, l) }));
    lemma_skip_to(path, o, l, lines, b, 0);
    assert(lines.skip(b as int)[0] == lines[b as int]);
}

/// A read refuses a file whose first line to return is not UTF-8 text.
pub proof fn law_read_refuses_invalid_utf8(path: Seq<char>, o: nat, l: nat, lines: Seq<Seq<u8>>)
    requires
        1 <= o,
        1 <= l,
        o - 1 < lines.len(),
        forall|i: int| 0 <= i < o ==> 0 < (#[trigger] lines[i]).len() <= MAX_READ_BYTES,
        !vstd::utf8::valid_utf8(lines[o - 1]),
    ensures
        read_lines(fresh_window(o, l), path, lines) == Err::<Seq<char>, Seq<char>>(invalid_utf8_text()),
{
    assert(lines.skip(0) =~= lines);
    assert(fresh_window(o, l) == (ReadWindowV { number: 0, ..fresh_window(o, l) }));
    lemma_skip_to(path, o, l, lines, (o - 1) as nat, 0);
    assert(lines.skip(o - 1)[0] == lines[o - 1]);
}

} // verus!
