//! Conversation records: which session ids are acceptable, how the lines of a
//! transcript become records (strictly: one bad line rejects the file), and the
//! titles shown in the session picker.
use vstd::prelude::*;
use crate::i18n::{self, Key, Lang, key_text, fill_all, args_view};
use crate::text::{
    is_ascii_alnum, is_ascii_alphanumeric, is_ws, is_whitespace, trim, trimmed, str_lines, lines_of, chars_of,
    string_of, digits, decimal, push_char,
};
use crate::json::str_eq;
use super::work::Trace;
use super::skills::{name_lt, name_less, lemma_name_lt_irreflexive, lemma_name_lt_total, lemma_name_lt_transitive};

verus! {

#[derive(Debug, Clone)]
pub struct Record {
    pub ts: String,
    pub role: String,
    pub content: String,
}

#[derive(Debug, Clone)]
pub struct SessionView {
    pub id: String,
    pub title: String,
    pub updated: String,
    pub current: bool,
}

pub open spec fn id_char(c: char) -> bool {
    is_ascii_alnum(c) || c == '-'
}

/// A session id names a file of the session directory: letters, digits and
/// hyphens only.
pub open spec fn valid_id_spec(id: Seq<char>) -> bool {
    id.len() > 0 && forall|i: int| 0 <= i < id.len() ==> id_char(#[trigger] id[i])
}

pub fn valid_id(id: &str) -> (r: bool)
    ensures
        r == valid_id_spec(id@),
{
    let cs = chars_of(id);
    if cs.len() == 0 {
        return false;
    }
    let mut i: usize = 0;
    while i < cs.len()
        invariant
            i <= cs@.len(),
            cs@ == id@,
            forall|j: int| 0 <= j < i ==> id_char(#[trigger] cs@[j]),
        decreases cs@.len() - i,
    {
        let c = cs[i];
        if !(is_ascii_alphanumeric(c) || c == '-') {
            return false;
        }
        i = i + 1;
    }
    true
}

/// The non-blank lines of a transcript with their 1-based numbers.
pub open spec fn kept_lines(lines: Seq<Seq<char>>) -> Seq<(nat, Seq<char>)>
    decreases lines.len(),
{
    if lines.len() == 0 {
        Seq::empty()
    } else {
        let rest = kept_lines(lines.drop_last());
        if trim(lines.last()).len() == 0 { rest } else { rest.push((lines.len(), lines.last())) }
    }
}

pub open spec fn numbered_view(v: Seq<(usize, String)>) -> Seq<(nat, Seq<char>)> {
    v.map_values(|x: (usize, String)| (x.0 as nat, x.1@))
}

/// The lines of a transcript that hold records, numbered as in the file.
pub fn record_lines(text: &str) -> (r: Vec<(usize, String)>)
    ensures
        numbered_view(r@) == kept_lines(str_lines(text@)),
{
    let lines = lines_of(chars_of(text).as_slice());
    let ghost lv = lines@.map_values(|l: Vec<char>| l@);
    let mut out: Vec<(usize, String)> = Vec::new();
    let mut i: usize = 0;
    proof {
        assert(lv.take(0) =~= Seq::<Seq<char>>::empty());
    }
    while i < lines.len()
        invariant
            i <= lines@.len(),
            lv == lines@.map_values(|l: Vec<char>| l@),
            lv == str_lines(text@),
            numbered_view(out@) == kept_lines(lv.take(i as int)),
        decreases lines@.len() - i,
    {
        proof {
            assert(lv.take(i as int + 1).drop_last() =~= lv.take(i as int));
            assert(lv.take(i as int + 1).last() == lines@[i as int]@);
        }
        if trimmed(lines[i].as_slice()).len() > 0 {
            let ghost prev = out@;
            let line = string_of(lines[i].as_slice());
            out.push((i + 1, line));
            proof {
                assert(numbered_view(out@) =~= numbered_view(prev).push(((i + 1) as nat, lines@[i as int]@)));
            }
        }
        i = i + 1;
    }
    proof {
        assert(lv.take(lines@.len() as int) =~= lv);
    }
    out
}

pub open spec fn conversation_role(role: Seq<char>) -> bool {
    role == "user"@ || role == "assistant"@
}

pub open spec fn corrupt_text(lang: Lang, id: Seq<char>, line: nat, e: Seq<char>) -> Seq<char> {
    fill_all(key_text(lang, Key::SessionLineCorrupt), seq![("id"@, id), ("line"@, digits(line)), ("e"@, e)])
}

pub open spec fn invalid_role_text(lang: Lang, id: Seq<char>, line: nat) -> Seq<char> {
    fill_all(key_text(lang, Key::SessionLineInvalidRole), seq![("id"@, id), ("line"@, digits(line))])
}

pub open spec fn no_records_text(lang: Lang, id: Seq<char>) -> Seq<char> {
    fill_all(key_text(lang, Key::SessionNoRecords), seq![("id"@, id)])
}

/// Records in order up to the first line that did not parse or holds another
/// role than user or assistant.
pub open spec fn scan_records(lang: Lang, id: Seq<char>, parsed: Seq<(usize, Result<Record, String>)>) -> Result<
    Seq<Record>,
    Seq<char>,
>
    decreases parsed.len(),
{
    if parsed.len() == 0 {
        Ok(Seq::empty())
    } else {
        match scan_records(lang, id, parsed.drop_last()) {
            Err(e) => Err(e),
            Ok(rs) => {
                let (line, item) = parsed.last();
                match item {
                    Err(e) => Err(corrupt_text(lang, id, line as nat, e@)),
                    Ok(r) => if conversation_role(r.role@) {
                        Ok(rs.push(r))
                    } else {
                        Err(invalid_role_text(lang, id, line as nat))
                    },
                }
            },
        }
    }
}

/// A transcript is restored whole or not at all: the first bad line is the
/// error, and a transcript without records is one too.
pub open spec fn records_of(lang: Lang, id: Seq<char>, parsed: Seq<(usize, Result<Record, String>)>) -> Result<
    Seq<Record>,
    Seq<char>,
> {
    match scan_records(lang, id, parsed) {
        Err(e) => Err(e),
        Ok(rs) => if rs.len() == 0 { Err(no_records_text(lang, id)) } else { Ok(rs) },
    }
}

pub open spec fn records_view(r: Result<Vec<Record>, String>) -> Result<Seq<Record>, Seq<char>> {
    match r {
        Ok(v) => Ok(v@),
        Err(e) => Err(e@),
    }
}

/// Checks the parsed lines of a transcript, each with its line number and the
/// record it holds or the parser's error.
pub fn check_records(lang: Lang, id: &str, parsed: Vec<(usize, Result<Record, String>)>) -> (r: Result<Vec<Record>, String>)
    ensures
        records_view(r) == records_of(lang, id@, parsed@),
{
    let ghost all = parsed@;
    let n = parsed.len();
    let mut rest = parsed;
    let mut out: Vec<Record> = Vec::new();
    let mut i: usize = 0;
    proof {
        assert(all.take(0) =~= Seq::<(usize, Result<Record, String>)>::empty());
        assert(all.skip(0) =~= all);
    }
    while rest.len() > 0
        invariant
            i <= n,
            n == all.len(),
            all == parsed@,
            rest@ == all.skip(i as int),
            scan_records(lang, id@, all.take(i as int)) == Ok::<Seq<Record>, Seq<char>>(out@),
        decreases rest@.len(),
    {
        let (line, item) = rest.remove(0);
        proof {
            assert(all.skip(i as int).remove(0) =~= all.skip(i + 1));
            assert(all.take(i as int + 1).drop_last() =~= all.take(i as int));
            assert(all.take(i as int + 1).last() == all[i as int]);
        }
        match item {
            Err(e) => {
                let number = decimal(line as u64);
                let args = [("id", id), ("line", number.as_str()), ("e", e.as_str())];
                let text = i18n::fill(lang, Key::SessionLineCorrupt, &args);
                proof {
                    assert(args_view(args@) =~= seq![("id"@, id@), ("line"@, digits(line as nat)), ("e"@, e@)]);
                    assert(all[i as int].1 is Err);
                    assert(scan_records(lang, id@, all.take(i as int + 1)) == Err::<Seq<Record>, Seq<char>>(text@));
                    lemma_scan_error_persists(lang, id@, all, i as int + 1);
                }
                return Err(text);
            },
            Ok(record) => {
                if !(str_eq(record.role.as_str(), "user") || str_eq(record.role.as_str(), "assistant")) {
                    let number = decimal(line as u64);
                    let args = [("id", id), ("line", number.as_str())];
                    let text = i18n::fill(lang, Key::SessionLineInvalidRole, &args);
                    proof {
                        assert(args_view(args@) =~= seq![("id"@, id@), ("line"@, digits(line as nat))]);
                        assert(!conversation_role(record.role@));
                        assert(scan_records(lang, id@, all.take(i as int + 1)) == Err::<Seq<Record>, Seq<char>>(text@));
                        lemma_scan_error_persists(lang, id@, all, i as int + 1);
                    }
                    return Err(text);
                }
                out.push(record);
            },
        }
        i = i + 1;
    }
    proof {
        assert(all.take(n as int) =~= all);
    }
    if out.len() == 0 {
        let args = [("id", id)];
        let text = i18n::fill(lang, Key::SessionNoRecords, &args);
        proof {
            assert(args_view(args@) =~= seq![("id"@, id@)]);
        }
        return Err(text);
    }
    Ok(out)
}

/// Once a prefix of the lines is rejected, every longer prefix is rejected the
/// same way.
proof fn lemma_scan_error_persists(lang: Lang, id: Seq<char>, all: Seq<(usize, Result<Record, String>)>, k: int)
    requires
        0 <= k <= all.len(),
        scan_records(lang, id, all.take(k)) is Err,
    ensures
        scan_records(lang, id, all) == scan_records(lang, id, all.take(k)),
    decreases all.len() - k,
{
    if k < all.len() {
        assert(all.take(k + 1).drop_last() =~= all.take(k));
        lemma_scan_error_persists(lang, id, all, k + 1);
    } else {
        assert(all.take(k) =~= all);
    }
}

/// The conversation a work journal still holds where its transcript is gone:
/// the user inputs and the assistant texts, in order.
pub open spec fn journal_records_of(trace: Seq<Trace>) -> Seq<(Seq<char>, Seq<char>)>
    decreases trace.len(),
{
    if trace.len() == 0 {
        Seq::empty()
    } else {
        let rest = journal_records_of(trace.drop_last());
        match trace.last() {
            Trace::User(t) => rest.push(("user"@, t@)),
            Trace::Text(t) => rest.push(("assistant"@, t@)),
            _ => rest,
        }
    }
}

pub open spec fn record_pairs(v: Seq<Record>) -> Seq<(Seq<char>, Seq<char>)> {
    v.map_values(|r: Record| (r.role@, r.content@))
}

/// Records rebuilt from a work journal's trace; they carry no timestamp.
pub fn journal_records(trace: Vec<Trace>) -> (r: Vec<Record>)
    ensures
        record_pairs(r@) == journal_records_of(trace@),
        forall|i: int| 0 <= i < r@.len() ==> (#[trigger] r@[i]).ts@ == Seq::<char>::empty(),
{
    let ghost all = trace@;
    let n = trace.len();
    let mut rest = trace;
    let mut out: Vec<Record> = Vec::new();
    let mut i: usize = 0;
    proof {
        assert(all.take(0) =~= Seq::<Trace>::empty());
        assert(all.skip(0) =~= all);
    }
    while rest.len() > 0
        invariant
            i <= n,
            n == all.len(),
            rest@ == all.skip(i as int),
            record_pairs(out@) == journal_records_of(all.take(i as int)),
            forall|j: int| 0 <= j < out@.len() ==> (#[trigger] out@[j]).ts@ == Seq::<char>::empty(),
        decreases rest@.len(),
    {
        let t = rest.remove(0);
        proof {
            assert(all.skip(i as int).remove(0) =~= all.skip(i + 1));
            assert(all.take(i as int + 1).drop_last() =~= all.take(i as int));
            assert(all.take(i as int + 1).last() == all[i as int]);
        }
        let ghost prev = out@;
        match t {
            Trace::User(text) => {
                out.push(Record { ts: String::new(), role: "user".to_owned(), content: text });
                proof {
                    assert(record_pairs(out@) =~= record_pairs(prev).push(("user"@, out@.last().content@)));
                }
            },
            Trace::Text(text) => {
                out.push(Record { ts: String::new(), role: "assistant".to_owned(), content: text });
                proof {
                    assert(record_pairs(out@) =~= record_pairs(prev).push(("assistant"@, out@.last().content@)));
                }
            },
            _ => {},
        }
        i = i + 1;
    }
    proof {
        assert(all.take(n as int) =~= all);
    }
    out
}

/// The text with every run of white space made one space.
pub open spec fn squeeze(s: Seq<char>) -> Seq<char>
    decreases s.len(),
{
    if s.len() == 0 {
        s
    } else {
        let r = squeeze(s.drop_last());
        if is_ws(s.last()) {
            if r.len() > 0 && r.last() == ' ' { r } else { r.push(' ') }
        } else {
            r.push(s.last())
        }
    }
}

/// The words of a text joined by single spaces.
pub open spec fn collapsed(s: Seq<char>) -> Seq<char> {
    trim(squeeze(s))
}

/// The first user record.
pub open spec fn first_user(rs: Seq<Record>) -> Option<Record>
    decreases rs.len(),
{
    if rs.len() == 0 {
        None
    } else if rs[0].role@ == "user"@ {
        Some(rs[0])
    } else {
        first_user(rs.drop_first())
    }
}

/// A session's title in the picker: the first 64 characters of its first user
/// input with white space collapsed; "untitled" without one, "unreadable" when
/// its records could not be read.
pub open spec fn title_of(lang: Lang, records: Option<Seq<Record>>) -> Seq<char> {
    match records {
        None => key_text(lang, Key::UnreadableSession),
        Some(rs) => match first_user(rs) {
            None => key_text(lang, Key::UntitledSession),
            Some(r) => {
                let c = collapsed(r.content@);
                if c.len() <= 64 { c } else { c.take(64) }
            },
        },
    }
}

fn squeezed(s: &Vec<char>) -> (r: Vec<char>)
    ensures
        r@ == squeeze(s@),
{
    let mut out: Vec<char> = Vec::new();
    let mut i: usize = 0;
    proof {
        assert(s@.take(0) =~= Seq::<char>::empty());
    }
    while i < s.len()
        invariant
            i <= s@.len(),
            out@ == squeeze(s@.take(i as int)),
        decreases s@.len() - i,
    {
        proof {
            assert(s@.take(i as int + 1).drop_last() =~= s@.take(i as int));
            assert(s@.take(i as int + 1).last() == s@[i as int]);
        }
        let c = s[i];
        if is_whitespace(c) {
            if !(out.len() > 0 && out[out.len() - 1] == ' ') {
                out.push(' ');
            }
        } else {
            out.push(c);
        }
        i = i + 1;
    }
    proof {
        assert(s@.take(s@.len() as int) =~= s@);
    }
    out
}

/// The picker title of a session whose records were read (`Some`) or could not
/// be (`None`).
pub fn session_title(lang: Lang, records: Option<&Vec<Record>>) -> (r: String)
    ensures
        r@ == title_of(lang, match records {
            Some(v) => Some(v@),
            None => None,
        }),
{
    match records {
        None => i18n::text(lang, Key::UnreadableSession).to_owned(),
        Some(rs) => {
            let mut i: usize = 0;
            proof {
                assert(rs@.skip(0) =~= rs@);
            }
            while i < rs.len()
                invariant
                    i <= rs@.len(),
                    records == Some(rs),
                    first_user(rs@) == first_user(rs@.skip(i as int)),
                decreases rs@.len() - i,
            {
                proof {
                    assert(rs@.skip(i as int).drop_first() =~= rs@.skip(i + 1));
                    assert(rs@.skip(i as int)[0] == rs@[i as int]);
                }
                if str_eq(rs[i].role.as_str(), "user") {
                    let squeezed = squeezed(&chars_of(rs[i].content.as_str()));
                    let c = trimmed(squeezed.as_slice());
                    let n = if c.len() <= 64 { c.len() } else { 64 };
                    let t = crate::text::copy_chars(c.as_slice(), 0, n);
                    proof {
                        assert(first_user(rs@.skip(i as int)) == Some(rs@[i as int]));
                        assert(c@ == collapsed(rs@[i as int].content@));
                        if c@.len() <= 64 {
                            assert(t@ =~= c@);
                        } else {
                            assert(t@ =~= c@.take(64));
                        }
                    }
                    return string_of(t.as_slice());
                }
                i = i + 1;
            }
            i18n::text(lang, Key::UntitledSession).to_owned()
        },
    }
}


proof fn lemma_scan_ok(lang: Lang, id: Seq<char>, parsed: Seq<(usize, Result<Record, String>)>)
    requires
        scan_records(lang, id, parsed) is Ok,
    ensures
        scan_records(lang, id, parsed)->Ok_0.len() == parsed.len(),
        forall|i: int|
            0 <= i < parsed.len() ==> (#[trigger] parsed[i]).1 is Ok && conversation_role(parsed[i].1->Ok_0.role@)
                && scan_records(lang, id, parsed)->Ok_0[i] == parsed[i].1->Ok_0,
    decreases parsed.len(),
{
    if parsed.len() > 0 {
        lemma_scan_ok(lang, id, parsed.drop_last());
        assert forall|i: int| 0 <= i < parsed.len() - 1 implies (#[trigger] parsed[i]) == parsed.drop_last()[i] by {}
    }
}

/// Restoration is all or nothing: a transcript that restores has at least one
/// record, every one of its record lines parsed and holds a user or assistant
/// message, and the records are those lines' records in file order.
pub proof fn law_restore_is_all_or_nothing(lang: Lang, id: Seq<char>, parsed: Seq<(usize, Result<Record, String>)>)
    requires
        records_of(lang, id, parsed) is Ok,
    ensures
        parsed.len() > 0,
        records_of(lang, id, parsed)->Ok_0.len() == parsed.len(),
        forall|i: int|
            0 <= i < parsed.len() ==> (#[trigger] parsed[i]).1 is Ok && conversation_role(parsed[i].1->Ok_0.role@)
                && records_of(lang, id, parsed)->Ok_0[i] == parsed[i].1->Ok_0,
{
    lemma_scan_ok(lang, id, parsed);
}


/// A session found on disk: its id, when its files last changed, and the title
/// and time text shown for it.
#[derive(Debug)]
pub struct SessionEntry {
    pub id: String,
    pub modified: u64,
    pub title: String,
    pub updated: String,
}

/// The session picker's order: newer first, and among equally old ones the
/// larger id first.
pub open spec fn listed_before(a: SessionEntry, b: SessionEntry) -> bool {
    a.modified > b.modified || (a.modified == b.modified && name_lt(b.id@, a.id@))
}

/// An entry whose id no earlier entry had.
pub open spec fn first_of_id(entries: Seq<SessionEntry>, k: int) -> bool {
    0 <= k < entries.len() && forall|j: int| 0 <= j < k ==> entries[j].id@ != (#[trigger] entries[k]).id@
}

proof fn lemma_before_order(a: SessionEntry, b: SessionEntry, c: SessionEntry)
    ensures
        !listed_before(a, a),
        a.id@ != b.id@ ==> (listed_before(a, b) || listed_before(b, a)),
        !(listed_before(a, b) && listed_before(b, a)),
        listed_before(a, b) && listed_before(b, c) ==> listed_before(a, c),
{
    lemma_name_lt_irreflexive(a.id@);
    lemma_name_lt_total(a.id@, b.id@);
    if listed_before(a, b) && listed_before(b, c) && a.modified == b.modified && b.modified == c.modified {
        lemma_name_lt_transitive(c.id@, b.id@, a.id@);
    }
}

fn before(a: &SessionEntry, b: &SessionEntry) -> (r: bool)
    ensures
        r == listed_before(*a, *b),
{
    if a.modified != b.modified {
        return a.modified > b.modified;
    }
    name_less(chars_of(b.id.as_str()).as_slice(), chars_of(a.id.as_str()).as_slice())
}

/// `sorted` lists one entry per id (the first found), in the picker's order.
pub open spec fn picker_order(entries: Seq<SessionEntry>, sorted: Seq<SessionEntry>) -> bool {
    &&& in_order(sorted)
    &&& forall|i: int| 0 <= i < sorted.len() ==> is_first_entry(entries, #[trigger] sorted[i])
    &&& forall|k: int| #![trigger entries[k]] first_of_id(entries, k) ==> sorted.contains(entries[k])
}

/// An entry that is the first of its id among the first `n` entries.
pub open spec fn first_entry_before(entries: Seq<SessionEntry>, x: SessionEntry, n: int) -> bool {
    exists|k: int| k < n && first_of_id(entries, k) && x == entries[k]
}

/// An entry that is the first of its id.
pub open spec fn is_first_entry(entries: Seq<SessionEntry>, x: SessionEntry) -> bool {
    exists|k: int| first_of_id(entries, k) && x == entries[k]
}

pub open spec fn in_order(s: Seq<SessionEntry>) -> bool {
    forall|i: int, j: int| 0 <= i < j < s.len() ==> listed_before(s[i], s[j])
}

pub open spec fn ids_of(s: Seq<SessionEntry>) -> Seq<Seq<char>> {
    s.map_values(|e: SessionEntry| e.id@)
}

fn has_id(out: &Vec<SessionEntry>, id: &str) -> (r: bool)
    ensures
        r == ids_of(out@).contains(id@),
{
    let mut q: usize = 0;
    while q < out.len()
        invariant
            q <= out@.len(),
            forall|a: int| 0 <= a < q ==> ids_of(out@)[a] != id@,
        decreases out@.len() - q,
    {
        if str_eq(out[q].id.as_str(), id) {
            proof {
                assert(ids_of(out@)[q as int] == id@);
            }
            return true;
        }
        q = q + 1;
    }
    false
}

/// Inserts an entry of a new id where the order puts it.
fn insert_sorted(out: &mut Vec<SessionEntry>, e: SessionEntry)
    requires
        in_order(old(out)@),
        !ids_of(old(out)@).contains(e.id@),
    ensures
        in_order(final(out)@),
        forall|x: SessionEntry| #[trigger] final(out)@.contains(x) <==> (old(out)@.contains(x) || x == e),
        forall|x: Seq<char>| #[trigger] ids_of(final(out)@).contains(x) <==> (ids_of(old(out)@).contains(x) || x == e.id@),
{
    let mut p: usize = 0;
    while p < out.len() && !before(&e, &out[p])
        invariant
            p <= out@.len(),
            forall|a: int| 0 <= a < p ==> !listed_before(e, #[trigger] out@[a]),
        decreases out@.len() - p,
    {
        p = p + 1;
    }
    let ghost old_out = out@;
    out.insert(p, e);
    proof {
        let o = out@;
        assert(o =~= old_out.take(p as int).push(e) + old_out.skip(p as int));
        assert forall|a: int, b: int| 0 <= a < b < o.len() implies listed_before(o[a], o[b]) by {
            if b < p {
                assert(o[a] == old_out[a] && o[b] == old_out[b]);
            } else if b == p {
                assert(o[a] == old_out[a]);
                assert(ids_of(old_out)[a] == old_out[a].id@);
                lemma_before_order(e, old_out[a], e);
            } else if a == p {
                assert(o[b] == old_out[b - 1]);
                assert(listed_before(e, old_out[p as int]));
                if b - 1 > p {
                    lemma_before_order(e, old_out[p as int], old_out[b - 1]);
                }
            } else if a < p {
                assert(o[a] == old_out[a] && o[b] == old_out[b - 1]);
            } else {
                assert(o[a] == old_out[a - 1] && o[b] == old_out[b - 1]);
            }
        }
        assert forall|x: SessionEntry| #[trigger] o.contains(x) <==> (old_out.contains(x) || x == e) by {
            if o.contains(x) {
                let a = choose|a: int| 0 <= a < o.len() && o[a] == x;
                if a < p {
                    assert(old_out[a] == x);
                } else if a > p {
                    assert(old_out[a - 1] == x);
                }
            }
            if old_out.contains(x) {
                let a = choose|a: int| 0 <= a < old_out.len() && old_out[a] == x;
                if a < p {
                    assert(o[a] == x);
                } else {
                    assert(o[a + 1] == x);
                }
            }
            if x == e {
                assert(o[p as int] == x);
            }
        }
        assert forall|x: Seq<char>| #[trigger] ids_of(o).contains(x) <==> (ids_of(old_out).contains(x) || x == e.id@) by {
            if ids_of(o).contains(x) {
                let a = choose|a: int| 0 <= a < o.len() && ids_of(o)[a] == x;
                assert(o.contains(o[a]));
                if o[a] != e {
                    let b = choose|b: int| 0 <= b < old_out.len() && old_out[b] == o[a];
                    assert(ids_of(old_out)[b] == x);
                }
            }
            if ids_of(old_out).contains(x) {
                let b = choose|b: int| 0 <= b < old_out.len() && ids_of(old_out)[b] == x;
                assert(old_out.contains(old_out[b]));
                assert(o.contains(old_out[b]));
                let a = choose|a: int| 0 <= a < o.len() && o[a] == old_out[b];
                assert(ids_of(o)[a] == x);
            }
            if x == e.id@ {
                assert(ids_of(o)[p as int] == x);
            }
        }
    }
}

/// The sessions to list: one per id (the first found), in the picker's order.
pub fn order_sessions(entries: Vec<SessionEntry>) -> (r: Vec<SessionEntry>)
    ensures
        picker_order(entries@, r@),
{
    let ghost all = entries@;
    let mut rest = entries;
    let mut out: Vec<SessionEntry> = Vec::new();
    let n = rest.len();
    let mut i: usize = 0;
    proof {
        assert(rest@ =~= all.skip(0));
    }
    while rest.len() > 0
        invariant
            i + rest@.len() == all.len(),
            all.len() == n,
            rest@ == all.skip(i as int),
            in_order(out@),
            forall|x: SessionEntry| #[trigger] out@.contains(x) ==> first_entry_before(all, x, i as int),
            forall|k: int| #![trigger all[k]] 0 <= k < i && first_of_id(all, k) ==> out@.contains(all[k]),
            forall|k: int| #![trigger all[k]] 0 <= k < i ==> ids_of(out@).contains(all[k].id@),
        decreases rest@.len(),
    {
        let e = rest.remove(0);
        proof {
            assert(e == all[i as int]);
            assert(rest@ =~= all.skip(i as int + 1));
        }
        if has_id(&out, e.id.as_str()) {
            proof {
                assert(!first_of_id(all, i as int)) by {
                    let a = choose|a: int| 0 <= a < out@.len() && ids_of(out@)[a] == e.id@;
                    assert(out@.contains(out@[a]));
                    assert(first_entry_before(all, out@[a], i as int));
                    let k = choose|k: int| k < i && first_of_id(all, k) && out@[a] == all[k];
                    assert(all[k].id@ == all[i as int].id@);
                }
            }
        } else {
            let ghost old_out = out@;
            proof {
                assert forall|k: int| 0 <= k < i implies all[k].id@ != all[i as int].id@ by {
                    assert(ids_of(old_out).contains(all[k].id@));
                }
                assert(first_of_id(all, i as int));
            }
            insert_sorted(&mut out, e);
            proof {
                assert forall|x: SessionEntry| #[trigger] out@.contains(x) implies first_entry_before(all, x, i + 1) by {
                    if x != e {
                        assert(old_out.contains(x));
                        let k = choose|k: int| k < i && first_of_id(all, k) && x == all[k];
                        assert(k < i + 1);
                    } else {
                        assert(first_of_id(all, i as int) && x == all[i as int]);
                    }
                }
                assert forall|k: int| #![trigger all[k]] 0 <= k < i + 1 && first_of_id(all, k) implies out@.contains(all[k]) by {
                    if k < i {
                        assert(old_out.contains(all[k]));
                    }
                }
                assert forall|k: int| #![trigger all[k]] 0 <= k < i + 1 implies ids_of(out@).contains(all[k].id@) by {
                    if k < i {
                        assert(ids_of(old_out).contains(all[k].id@));
                    }
                }
            }
        }
        i = i + 1;
    }
    proof {
        assert forall|a: int| 0 <= a < out@.len() implies is_first_entry(all, #[trigger] out@[a]) by {
            assert(out@.contains(out@[a]));
            let k = choose|k: int| k < i && first_of_id(all, k) && out@[a] == all[k];
        }
        assert forall|k: int| #![trigger all[k]] first_of_id(all, k) implies out@.contains(all[k]) by {
            assert(0 <= k < i);
        }
    }
    out
}

/// What the picker shows of an entry.
pub open spec fn view_of(e: SessionEntry, current: Seq<char>, v: SessionView) -> bool {
    v.id == e.id && v.title == e.title && v.updated == e.updated && v.current == (e.id@ == current)
}

/// The session picker's list: one view per session id, newest first, the
/// current session flagged.
pub fn session_views(entries: Vec<SessionEntry>, current: &str) -> (r: Vec<SessionView>)
    ensures
        exists|sorted: Seq<SessionEntry>| #[trigger] picker_order(entries@, sorted)
            && r@.len() == sorted.len()
            && forall|i: int| 0 <= i < sorted.len() ==> view_of(sorted[i], current@, #[trigger] r@[i]),
{
    let sorted = order_sessions(entries);
    let ghost sv = sorted@;
    let mut rest = sorted;
    let mut out: Vec<SessionView> = Vec::new();
    let mut i: usize = 0;
    let n = rest.len();
    proof {
        assert(rest@ =~= sv.skip(0));
    }
    while rest.len() > 0
        invariant
            i + rest@.len() == sv.len(),
            sv.len() == n,
            rest@ == sv.skip(i as int),
            out@.len() == i,
            forall|a: int| 0 <= a < i ==> view_of(sv[a], current@, #[trigger] out@[a]),
        decreases rest@.len(),
    {
        let e = rest.remove(0);
        proof {
            assert(e == sv[i as int]);
            assert(rest@ =~= sv.skip(i as int + 1));
        }
        let is_current = str_eq(e.id.as_str(), current);
        out.push(SessionView { id: e.id, title: e.title, updated: e.updated, current: is_current });
        i = i + 1;
    }
    proof {
        assert(picker_order(entries@, sv));
    }
    out
}

} // verus!
