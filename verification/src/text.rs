//! Character-level string helpers shared by the parsers of this crate.
use vstd::prelude::*;

verus! {

/// Unicode `White_Space`, the property that `char::is_whitespace` and `str::trim` use.
pub open spec fn is_ws(c: char) -> bool {
    let u = c as u32;
    (0x09 <= u && u <= 0x0D) || u == 0x20 || u == 0x85 || u == 0xA0 || u == 0x1680 || (0x2000
        <= u && u <= 0x200A) || u == 0x2028 || u == 0x2029 || u == 0x202F || u == 0x205F || u
        == 0x3000
}

pub fn is_whitespace(c: char) -> (r: bool)
    ensures
        r == is_ws(c),
{
    let u = c as u32;
    (0x09 <= u && u <= 0x0D) || u == 0x20 || u == 0x85 || u == 0xA0 || u == 0x1680 || (0x2000
        <= u && u <= 0x200A) || u == 0x2028 || u == 0x2029 || u == 0x202F || u == 0x205F || u
        == 0x3000
}

/// Unicode general category `Cc`, the property that `char::is_control` uses.
pub open spec fn is_ctrl(c: char) -> bool {
    let u = c as u32;
    u <= 0x1F || (0x7F <= u && u <= 0x9F)
}

pub fn is_control(c: char) -> (r: bool)
    ensures
        r == is_ctrl(c),
{
    let u = c as u32;
    u <= 0x1F || (0x7F <= u && u <= 0x9F)
}

pub open spec fn is_ascii_alnum(c: char) -> bool {
    ('0' <= c && c <= '9') || ('a' <= c && c <= 'z') || ('A' <= c && c <= 'Z')
}

pub fn is_ascii_alphanumeric(c: char) -> (r: bool)
    ensures
        r == is_ascii_alnum(c),
{
    ('0' <= c && c <= '9') || ('a' <= c && c <= 'z') || ('A' <= c && c <= 'Z')
}

pub open spec fn ascii_lower(c: char) -> char {
    if 'A' <= c && c <= 'Z' {
        ((c as u8) + 32) as char
    } else {
        c
    }
}

pub fn to_ascii_lowercase(c: char) -> (r: char)
    ensures
        r == ascii_lower(c),
{
    if 'A' <= c && c <= 'Z' {
        ((c as u8) + 32) as char
    } else {
        c
    }
}

pub open spec fn lower_seq(s: Seq<char>) -> Seq<char> {
    s.map_values(|c: char| ascii_lower(c))
}

/// Number of leading white-space characters.
pub open spec fn lead_ws(s: Seq<char>) -> nat
    decreases s.len(),
{
    if s.len() > 0 && is_ws(s[0]) {
        1 + lead_ws(s.drop_first())
    } else {
        0
    }
}

/// Number of trailing white-space characters.
pub open spec fn trail_ws(s: Seq<char>) -> nat
    decreases s.len(),
{
    if s.len() > 0 && is_ws(s.last()) {
        1 + trail_ws(s.drop_last())
    } else {
        0
    }
}

pub open spec fn trim_start(s: Seq<char>) -> Seq<char> {
    s.skip(lead_ws(s) as int)
}

pub open spec fn trim_end(s: Seq<char>) -> Seq<char> {
    s.take(s.len() - trail_ws(s))
}

/// What `str::trim` returns.
pub open spec fn trim(s: Seq<char>) -> Seq<char> {
    trim_end(trim_start(s))
}

pub proof fn lemma_lead_ws(s: Seq<char>)
    ensures
        lead_ws(s) <= s.len(),
        forall|i: int| 0 <= i < lead_ws(s) ==> is_ws(#[trigger] s[i]),
        lead_ws(s) < s.len() ==> !is_ws(s[lead_ws(s) as int]),
    decreases s.len(),
{
    if s.len() > 0 && is_ws(s[0]) {
        lemma_lead_ws(s.drop_first());
        assert forall|i: int| 0 <= i < lead_ws(s) implies is_ws(#[trigger] s[i]) by {
            if i > 0 {
                assert(s[i] == s.drop_first()[i - 1]);
            }
        }
    }
}

pub proof fn lemma_trail_ws(s: Seq<char>)
    ensures
        trail_ws(s) <= s.len(),
        forall|i: int| s.len() - trail_ws(s) <= i < s.len() ==> is_ws(#[trigger] s[i]),
        trail_ws(s) < s.len() ==> !is_ws(s[s.len() - trail_ws(s) - 1]),
    decreases s.len(),
{
    if s.len() > 0 && is_ws(s.last()) {
        lemma_trail_ws(s.drop_last());
        assert forall|i: int| s.len() - trail_ws(s) <= i < s.len() implies is_ws(#[trigger] s[i]) by {
            if i < s.len() - 1 {
                assert(s[i] == s.drop_last()[i]);
            }
        }
    }
}

/// The unique count of leading white space: a prefix of white space followed by a
/// non-white-space character or the end.
pub proof fn lemma_lead_ws_unique(s: Seq<char>, n: int)
    requires
        0 <= n <= s.len(),
        forall|i: int| 0 <= i < n ==> is_ws(#[trigger] s[i]),
        n < s.len() ==> !is_ws(s[n]),
    ensures
        lead_ws(s) == n,
    decreases s.len(),
{
    if n > 0 {
        assert(is_ws(s[0]));
        assert forall|i: int| 0 <= i < n - 1 implies is_ws(#[trigger] s.drop_first()[i]) by {
            assert(s.drop_first()[i] == s[i + 1]);
        }
        if n - 1 < s.drop_first().len() {
            assert(s.drop_first()[n - 1] == s[n]);
        }
        lemma_lead_ws_unique(s.drop_first(), n - 1);
    } else if s.len() > 0 {
        assert(!is_ws(s[0]));
    }
}

pub proof fn lemma_trail_ws_unique(s: Seq<char>, n: int)
    requires
        0 <= n <= s.len(),
        forall|i: int| s.len() - n <= i < s.len() ==> is_ws(#[trigger] s[i]),
        n < s.len() ==> !is_ws(s[s.len() - n - 1]),
    ensures
        trail_ws(s) == n,
    decreases s.len(),
{
    if n > 0 {
        assert(is_ws(s[s.len() - 1]));
        let t = s.drop_last();
        assert forall|i: int| t.len() - (n - 1) <= i < t.len() implies is_ws(#[trigger] t[i]) by {
            assert(t[i] == s[i]);
        }
        if n - 1 < t.len() {
            assert(t[t.len() - (n - 1) - 1] == s[s.len() - n - 1]);
        }
        lemma_trail_ws_unique(t, n - 1);
    } else if s.len() > 0 {
        assert(!is_ws(s.last()));
    }
}

/// Bounds `(start, end)` of `trim(s)` inside `s`.
pub fn trim_bounds(s: &[char]) -> (r: (usize, usize))
    ensures
        r.0 <= r.1 <= s@.len(),
        r.0 == lead_ws(s@),
        s@.subrange(r.0 as int, r.1 as int) == trim(s@),
{
    let mut start: usize = 0;
    while start < s.len() && is_whitespace(s[start])
        invariant
            start <= s@.len(),
            forall|i: int| 0 <= i < start ==> is_ws(#[trigger] s@[i]),
        decreases s@.len() - start,
    {
        start = start + 1;
    }
    proof {
        lemma_lead_ws_unique(s@, start as int);
    }
    let mut end: usize = s.len();
    while end > start && is_whitespace(s[end - 1])
        invariant
            start <= end <= s@.len(),
            forall|i: int| end <= i < s@.len() ==> is_ws(#[trigger] s@[i]),
        decreases end,
    {
        end = end - 1;
    }
    proof {
        let t = trim_start(s@);
        assert(t == s@.subrange(start as int, s@.len() as int));
        assert forall|i: int| t.len() - (s@.len() - end) <= i < t.len() implies is_ws(
            #[trigger] t[i],
        ) by {
            assert(t[i] == s@[i + start]);
        }
        if end > start {
            assert(t[t.len() - (s@.len() - end) - 1] == s@[end - 1]);
        }
        lemma_trail_ws_unique(t, s@.len() - end);
        assert(trim(s@) =~= s@.subrange(start as int, end as int));
    }
    (start, end)
}

/// The characters of a string slice.
pub fn chars_of(s: &str) -> (r: Vec<char>)
    ensures
        r@ == s@,
{
    let mut out: Vec<char> = Vec::new();
    for c in it: s.chars()
        invariant
            out@ == it.seq().take(it.index() as int),
            it.seq() == s@,
    {
        out.push(c);
        proof {
            assert(it.seq().take(it.index() as int + 1) =~= out@);
        }
    }
    proof {
        assert(out@ =~= s@);
    }
    out
}

/// `std::str::from_utf8`: whether the bytes are valid UTF-8, and the text they
/// encode when they are, as its documentation states.
#[verifier::external_body]
pub(crate) fn utf8_text(bytes: &[u8]) -> (r: Option<String>)
    ensures
        r is Some <==> vstd::utf8::valid_utf8(bytes@),
        r matches Some(t) ==> t@ == vstd::utf8::decode_utf8(bytes@),
{
    std::str::from_utf8(bytes).ok().map(str::to_owned)
}

/// `String::push`: appends one character.
#[verifier::external_body]
pub(crate) fn push_char(s: &mut String, c: char)
    ensures
        final(s)@ == old(s)@.push(c),
{
    s.push(c);
}

/// A `String` holding the given characters.
pub fn string_of(cs: &[char]) -> (r: String)
    ensures
        r@ == cs@,
{
    let mut out = String::new();
    let mut i: usize = 0;
    while i < cs.len()
        invariant
            i <= cs@.len(),
            out@ == cs@.take(i as int),
        decreases cs@.len() - i,
    {
        push_char(&mut out, cs[i]);
        proof {
            assert(cs@.take(i as int + 1) =~= cs@.take(i as int).push(cs@[i as int]));
        }
        i = i + 1;
    }
    proof {
        assert(cs@.take(cs@.len() as int) =~= cs@);
    }
    out
}

/// Appends a string slice.
pub fn push_str(s: &mut String, t: &str)
    ensures
        final(s)@ == old(s)@ + t@,
{
    s.append(t);
}

/// Sequence equality of two character slices.
pub fn chars_eq(a: &[char], b: &[char]) -> (r: bool)
    ensures
        r == (a@ == b@),
{
    if a.len() != b.len() {
        return false;
    }
    let mut i: usize = 0;
    while i < a.len()
        invariant
            a@.len() == b@.len(),
            i <= a@.len(),
            forall|j: int| 0 <= j < i ==> a@[j] == b@[j],
        decreases a@.len() - i,
    {
        if a[i] != b[i] {
            return false;
        }
        i = i + 1;
    }
    proof {
        assert(a@ =~= b@);
    }
    true
}

/// Whether `pat` occurs in `s` starting at `at`.
pub open spec fn occurs_at(s: Seq<char>, pat: Seq<char>, at: int) -> bool {
    0 <= at && at + pat.len() <= s.len() && s.subrange(at, at + pat.len()) == pat
}

pub fn matches_at(s: &[char], pat: &[char], at: usize) -> (r: bool)
    ensures
        r == occurs_at(s@, pat@, at as int),
{
    if at > s.len() || pat.len() > s.len() - at {
        return false;
    }
    let mut i: usize = 0;
    while i < pat.len()
        invariant
            at + pat@.len() <= s@.len(),
            i <= pat@.len(),
            forall|j: int| 0 <= j < i ==> s@[at + j] == pat@[j],
        decreases pat@.len() - i,
    {
        assert(at + i < s.len());
        if s[at + i] != pat[i] {
            proof {
                assert(s@.subrange(at as int, at + pat@.len())[i as int] != pat@[i as int]);
            }
            return false;
        }
        i = i + 1;
    }
    proof {
        assert(s@.subrange(at as int, at + pat@.len()) =~= pat@);
    }
    true
}

/// Index of the first occurrence of `pat` at or after `from`, as `str::find` gives it.
pub open spec fn first_at_or_after(s: Seq<char>, pat: Seq<char>, from: int, k: int) -> bool {
    from <= k && occurs_at(s, pat, k) && forall|j: int| from <= j < k ==> !occurs_at(s, pat, j)
}

pub open spec fn absent_from(s: Seq<char>, pat: Seq<char>, from: int) -> bool {
    forall|j: int| from <= j ==> !occurs_at(s, pat, j)
}

pub fn find_from(s: &[char], pat: &[char], from: usize) -> (r: Option<usize>)
    requires
        from <= s@.len(),
    ensures
        r matches Some(k) ==> first_at_or_after(s@, pat@, from as int, k as int),
        r is None ==> absent_from(s@, pat@, from as int),
{
    let mut k: usize = from;
    loop
        invariant
            from <= k <= s@.len(),
            forall|j: int| from <= j < k ==> !occurs_at(s@, pat@, j),
        decreases s@.len() - k,
    {
        if matches_at(s, pat, k) {
            return Some(k);
        }
        if k == s.len() {
            return None;
        }
        k = k + 1;
    }
}

/// A copy of `v[from..to]`.
pub fn copy_chars(v: &[char], from: usize, to: usize) -> (r: Vec<char>)
    requires
        from <= to <= v@.len(),
    ensures
        r@ == v@.subrange(from as int, to as int),
{
    let mut out: Vec<char> = Vec::new();
    let mut i: usize = from;
    while i < to
        invariant
            from <= i <= to <= v@.len(),
            out@ == v@.subrange(from as int, i as int),
        decreases to - i,
    {
        out.push(v[i]);
        proof {
            assert(out@ =~= v@.subrange(from as int, i + 1));
        }
        i = i + 1;
    }
    out
}

/// The decimal digit for `d < 10`.
pub open spec fn digit_char(d: nat) -> char {
    ((d + 48) as u8) as char
}

/// Decimal rendering of a natural number, as `Display` prints integers.
pub open spec fn digits(n: nat) -> Seq<char>
    decreases n,
{
    if n < 10 {
        seq![digit_char(n)]
    } else {
        digits(n / 10).push(digit_char(n % 10))
    }
}

pub fn push_digits(out: &mut Vec<char>, n: u64)
    ensures
        final(out)@ == old(out)@ + digits(n as nat),
    decreases n,
{
    if n >= 10 {
        push_digits(out, n / 10);
    }
    let d = (n % 10) as u8;
    out.push((d + 48) as char);
    proof {
        if n >= 10 {
            assert(digits(n as nat) == digits((n / 10) as nat).push(digit_char((n % 10) as nat)));
        }
    }
}

/// Decimal text of a number.
pub fn decimal(n: u64) -> (r: String)
    ensures
        r@ == digits(n as nat),
{
    let mut cs: Vec<char> = Vec::new();
    push_digits(&mut cs, n);
    assert(cs@ =~= digits(n as nat));
    string_of(cs.as_slice())
}

/// Appends the decimal text of a number.
pub fn push_decimal(s: &mut String, n: u64)
    ensures
        final(s)@ == old(s)@ + digits(n as nat),
{
    let d = decimal(n);
    push_str(s, d.as_str());
}

/// Parts joined with a separator, as `[..].join(sep)` gives them.
pub open spec fn seq_join(parts: Seq<Seq<char>>, sep: Seq<char>) -> Seq<char>
    decreases parts.len(),
{
    if parts.len() == 0 {
        Seq::empty()
    } else if parts.len() == 1 {
        parts[0]
    } else {
        seq_join(parts.drop_last(), sep) + sep + parts.last()
    }
}

pub open spec fn strings_view(v: Seq<String>) -> Seq<Seq<char>> {
    v.map_values(|s: String| s@)
}

/// `parts.join(sep)`.
pub fn join(parts: &Vec<String>, sep: &str) -> (r: String)
    ensures
        r@ == seq_join(strings_view(parts@), sep@),
{
    let mut out = String::new();
    let mut i: usize = 0;
    while i < parts.len()
        invariant
            i <= parts@.len(),
            out@ == seq_join(strings_view(parts@.take(i as int)), sep@),
        decreases parts@.len() - i,
    {
        let ghost prev = strings_view(parts@.take(i as int));
        proof {
            assert(strings_view(parts@.take(i as int + 1)) =~= prev.push(parts@[i as int]@));
            assert(strings_view(parts@.take(i as int + 1)).drop_last() =~= prev);
        }
        if i > 0 {
            push_str(&mut out, sep);
        } else {
            assert(out@ == Seq::<char>::empty());
        }
        push_str(&mut out, parts[i].as_str());
        i = i + 1;
    }
    proof {
        assert(parts@.take(parts@.len() as int) =~= parts@);
    }
    out
}

/// Index of the first `c`, or the length when there is none.
pub open spec fn char_pos(s: Seq<char>, c: char) -> nat
    decreases s.len(),
{
    if s.len() == 0 {
        0
    } else if s[0] == c {
        0
    } else {
        1 + char_pos(s.drop_first(), c)
    }
}

pub proof fn lemma_char_pos(s: Seq<char>, c: char, k: int)
    requires
        0 <= k <= s.len(),
        forall|j: int| 0 <= j < k ==> s[j] != c,
        k < s.len() ==> s[k] == c,
    ensures
        char_pos(s, c) == k,
    decreases s.len(),
{
    if k > 0 {
        assert(s[0] != c);
        assert forall|j: int| 0 <= j < k - 1 implies s.drop_first()[j] != c by {
            assert(s.drop_first()[j] == s[j + 1]);
        }
        if k < s.len() {
            assert(s.drop_first()[k - 1] == s[k]);
        }
        lemma_char_pos(s.drop_first(), c, k - 1);
    }
}

/// A line without its `\n` terminator loses one `\r` before it.
pub open spec fn strip_cr(line: Seq<char>) -> Seq<char> {
    if line.len() > 0 && line.last() == '\r' {
        line.drop_last()
    } else {
        line
    }
}

/// What `str::lines` yields: pieces split at `\n`, each terminated piece without a
/// trailing `\r`, and no empty piece after a final `\n`.
pub open spec fn str_lines(s: Seq<char>) -> Seq<Seq<char>>
    decreases s.len(),
{
    if s.len() == 0 {
        Seq::empty()
    } else {
        let k = char_pos(s, '\n') as int;
        if k >= s.len() {
            seq![s]
        } else {
            seq![strip_cr(s.take(k))] + str_lines(s.skip(k + 1))
        }
    }
}

/// The lines of a text, as `str::lines` splits it.
pub fn lines_of(s: &[char]) -> (r: Vec<Vec<char>>)
    ensures
        r@.map_values(|l: Vec<char>| l@) == str_lines(s@),
{
    let mut out: Vec<Vec<char>> = Vec::new();
    let mut start: usize = 0;
    let mut i: usize = 0;
    proof {
        assert(s@.skip(0) =~= s@);
    }
    while i < s.len()
        invariant
            start <= i <= s@.len(),
            forall|k: int| start <= k < i ==> s@[k] != '\n',
            out@.map_values(|l: Vec<char>| l@) + str_lines(s@.skip(start as int)) == str_lines(s@),
        decreases s@.len() - i,
    {
        if s[i] == '\n' {
            let ghost tail = s@.skip(start as int);
            proof {
                assert forall|k: int| 0 <= k < i - start implies tail[k] != '\n' by {
                    assert(tail[k] == s@[k + start]);
                }
                assert(tail[i - start] == s@[i as int]);
                lemma_char_pos(tail, '\n', i - start);
                assert(tail.skip(i - start + 1) =~= s@.skip(i + 1));
            }
            let mut end = i;
            if end > start && s[end - 1] == '\r' {
                end = end - 1;
            }
            let line = copy_chars(s, start, end);
            proof {
                assert(line@ =~= strip_cr(tail.take(i - start)));
            }
            let ghost before = out@;
            out.push(line);
            proof {
                assert(out@.map_values(|l: Vec<char>| l@) =~= before.map_values(|l: Vec<char>| l@).push(line@));
            }
            start = i + 1;
        }
        i = i + 1;
    }
    if start < s.len() {
        let ghost tail = s@.skip(start as int);
        proof {
            assert forall|k: int| 0 <= k < tail.len() implies tail[k] != '\n' by {
                assert(tail[k] == s@[k + start]);
            }
            lemma_char_pos(tail, '\n', tail.len() as int);
        }
        let line = copy_chars(s, start, s.len());
        let ghost before = out@;
        out.push(line);
        proof {
            assert(line@ =~= tail);
            assert(out@.map_values(|l: Vec<char>| l@) =~= before.map_values(|l: Vec<char>| l@).push(line@));
        }
    } else {
        proof {
            assert(s@.skip(start as int) =~= Seq::<char>::empty());
        }
    }
    proof {
        assert(out@.map_values(|l: Vec<char>| l@) + Seq::<Seq<char>>::empty() =~= out@.map_values(|l: Vec<char>| l@));
    }
    out
}

/// Number of UTF-8 bytes that encode a character.
pub open spec fn char_bytes(c: char) -> nat {
    let u = c as u32;
    if u < 0x80 {
        1
    } else if u < 0x800 {
        2
    } else if u < 0x10000 {
        3
    } else {
        4
    }
}

pub fn char_len_utf8(c: char) -> (r: usize)
    ensures
        r == char_bytes(c),
{
    let u = c as u32;
    if u < 0x80 {
        1
    } else if u < 0x800 {
        2
    } else if u < 0x10000 {
        3
    } else {
        4
    }
}

/// Number of UTF-8 bytes that encode a text (what `str::len` reports).
pub open spec fn utf8_len(s: Seq<char>) -> nat
    decreases s.len(),
{
    if s.len() == 0 {
        0
    } else {
        utf8_len(s.drop_last()) + char_bytes(s.last())
    }
}

pub proof fn lemma_utf8_len_mono(s: Seq<char>, i: int, j: int)
    requires
        0 <= i <= j <= s.len(),
    ensures
        utf8_len(s.take(i)) <= utf8_len(s.take(j)),
    decreases j - i,
{
    if i < j {
        assert(s.take(j).drop_last() =~= s.take(j - 1));
        lemma_utf8_len_mono(s, i, j - 1);
    }
}

/// The longest prefix whose UTF-8 encoding fits in `limit` bytes: the cut that
/// backs off to a character boundary.
pub open spec fn prefix_within(s: Seq<char>, limit: nat, n: int) -> bool {
    0 <= n <= s.len() && utf8_len(s.take(n)) <= limit && (n < s.len() ==> utf8_len(s.take(n + 1)) > limit)
}

/// Length (in characters) of the longest prefix that fits in `limit` bytes.
pub fn fitting_prefix(s: &[char], limit: usize) -> (r: usize)
    ensures
        prefix_within(s@, limit as nat, r as int),
{
    let mut n: usize = 0;
    let mut bytes: usize = 0;
    proof {
        assert(s@.take(0) =~= Seq::<char>::empty());
    }
    while n < s.len()
        invariant
            n <= s@.len(),
            bytes == utf8_len(s@.take(n as int)),
            bytes <= limit,
        decreases s@.len() - n,
    {
        let w = char_len_utf8(s[n]);
        proof {
            assert(s@.take(n as int + 1).drop_last() =~= s@.take(n as int));
        }
        if w > limit - bytes {
            return n;
        }
        bytes = bytes + w;
        n = n + 1;
    }
    n
}

/// Whether the UTF-8 encoding of a text is longer than `limit` bytes.
pub fn exceeds_bytes(s: &[char], limit: usize) -> (r: bool)
    ensures
        r == (utf8_len(s@) > limit),
{
    let n = fitting_prefix(s, limit);
    proof {
        assert(s@.take(s@.len() as int) =~= s@);
        if n < s@.len() {
            lemma_utf8_len_mono(s@, n as int + 1, s@.len() as int);
        }
    }
    n < s.len()
}

/// A copy of `trim(s)`.
pub fn trimmed(s: &[char]) -> (r: Vec<char>)
    ensures
        r@ == trim(s@),
{
    let (a, b) = trim_bounds(s);
    copy_chars(s, a, b)
}

/// Length of `trim_end(s)`.
pub fn trim_end_len(s: &[char]) -> (r: usize)
    ensures
        r <= s@.len(),
        s@.take(r as int) == trim_end(s@),
{
    let mut end: usize = s.len();
    while end > 0 && is_whitespace(s[end - 1])
        invariant
            end <= s@.len(),
            forall|i: int| end <= i < s@.len() ==> is_ws(#[trigger] s@[i]),
        decreases end,
    {
        end = end - 1;
    }
    proof {
        if end > 0 {
            assert(s@[s@.len() - (s@.len() - end) - 1] == s@[end - 1]);
        }
        lemma_trail_ws_unique(s@, s@.len() - end);
    }
    end
}

/// What `str::find` returns: the index of the first occurrence of `pat`.
pub open spec fn find_first(s: Seq<char>, pat: Seq<char>) -> Option<int> {
    if exists|k: int| first_at_or_after(s, pat, 0, k) {
        Some(choose|k: int| first_at_or_after(s, pat, 0, k))
    } else {
        None
    }
}

pub open spec fn opt_index(r: Option<usize>) -> Option<int> {
    match r {
        Some(k) => Some(k as int),
        None => None,
    }
}

pub fn find(s: &[char], pat: &[char]) -> (r: Option<usize>)
    ensures
        opt_index(r) == find_first(s@, pat@),
        r matches Some(k) ==> occurs_at(s@, pat@, k as int),
{
    let r = find_from(s, pat, 0);
    proof {
        match r {
            Some(k) => {
                let c = choose|j: int| first_at_or_after(s@, pat@, 0, j);
                assert(first_at_or_after(s@, pat@, 0, c));
                if c < k {
                    assert(!occurs_at(s@, pat@, c));
                } else if c > k {
                    assert(!occurs_at(s@, pat@, k as int));
                }
            },
            None => {
                assert(!exists|k: int| first_at_or_after(s@, pat@, 0, k));
            },
        }
    }
    r
}

/// Value of a run of ASCII decimal digits.
pub open spec fn digits_value(s: Seq<char>) -> nat
    decreases s.len(),
{
    if s.len() == 0 {
        0
    } else {
        digits_value(s.drop_last()) * 10 + ((s.last() as u32 - 48) as nat)
    }
}

pub open spec fn all_digits(s: Seq<char>) -> bool {
    forall|i: int| 0 <= i < s.len() ==> '0' <= #[trigger] s[i] && s[i] <= '9'
}

/// What `str::parse::<usize>` accepts: an optional `+` and at least one ASCII
/// digit, with a value that fits.
pub open spec fn parse_usize_spec(s: Seq<char>) -> Option<usize> {
    let d = if s.len() > 0 && s[0] == '+' { s.skip(1) } else { s };
    if d.len() > 0 && all_digits(d) && digits_value(d) <= usize::MAX {
        Some(digits_value(d) as usize)
    } else {
        None
    }
}

pub fn parse_usize(s: &[char]) -> (r: Option<usize>)
    ensures
        r == parse_usize_spec(s@),
{
    let start: usize = if s.len() > 0 && s[0] == '+' { 1 } else { 0 };
    let ghost d = if s@.len() > 0 && s@[0] == '+' { s@.skip(1) } else { s@ };
    proof {
        assert(d =~= s@.skip(start as int));
    }
    if start == s.len() {
        return None;
    }
    let mut v: usize = 0;
    let mut i: usize = start;
    proof {
        assert(s@.subrange(start as int, start as int) =~= Seq::<char>::empty());
    }
    while i < s.len()
        invariant
            start <= i <= s@.len(),
            d == s@.skip(start as int),
            d == (if s@.len() > 0 && s@[0] == '+' { s@.skip(1) } else { s@ }),
            all_digits(s@.subrange(start as int, i as int)),
            v == digits_value(s@.subrange(start as int, i as int)),
        decreases s@.len() - i,
    {
        let c = s[i];
        proof {
            assert(s@.subrange(start as int, i + 1).drop_last() =~= s@.subrange(start as int, i as int));
        }
        if !('0' <= c && c <= '9') {
            proof {
                assert(d[i - start] == c);
                assert(!('0' <= d[i - start] && d[i - start] <= '9'));
                assert(!all_digits(d));
            }
            return None;
        }
        let digit = (c as u32 - 48) as usize;
        if v > (usize::MAX - digit) / 10 {
            proof {
                assert(s@.subrange(start as int, i + 1) =~= d.take(i - start + 1));
                assert(digits_value(s@.subrange(start as int, i + 1)) == v * 10 + digit) by {
                    assert(s@.subrange(start as int, i + 1).last() == c);
                }
                assert(v * 10 + digit > usize::MAX) by (nonlinear_arith)
                    requires
                        v > (usize::MAX - digit) / 10,
                        digit <= 9,
                ;
                if all_digits(d) {
                    lemma_digits_value_prefix(d, i - start + 1);
                }
                assert(all_digits(d) ==> digits_value(d) > usize::MAX);
            }
            return None;
        }
        proof {
            assert(v * 10 + digit <= usize::MAX) by (nonlinear_arith)
                requires
                    v <= (usize::MAX - digit) / 10,
                    digit <= 9,
            ;
            assert(s@.subrange(start as int, i + 1).last() == c);
        }
        v = v * 10 + digit;
        i = i + 1;
    }
    proof {
        assert(s@.subrange(start as int, s@.len() as int) =~= d);
    }
    Some(v)
}

/// A prefix of a digit run is worth no more than the run.
pub proof fn lemma_digits_value_prefix(d: Seq<char>, k: int)
    requires
        0 <= k <= d.len(),
        all_digits(d),
    ensures
        digits_value(d.take(k)) <= digits_value(d),
    decreases d.len() - k,
{
    if k < d.len() {
        lemma_digits_value_prefix(d, k + 1);
        assert(d.take(k + 1).drop_last() =~= d.take(k));
        assert('0' <= d[k] && d[k] <= '9');
    } else {
        assert(d.take(k) =~= d);
    }
}

/// A text has at least as many characters as lines, and its first line plus one
/// separator per further line.
pub proof fn lemma_str_lines_bound(s: Seq<char>)
    ensures
        str_lines(s).len() <= s.len(),
        str_lines(s).len() > 0 ==> str_lines(s).len() - 1 + str_lines(s)[0].len() <= s.len(),
    decreases s.len(),
{
    if s.len() > 0 {
        let k = char_pos(s, '\n') as int;
        lemma_char_pos_bound(s, '\n');
        if k < s.len() {
            lemma_str_lines_bound(s.skip(k + 1));
            assert(str_lines(s)[0] == strip_cr(s.take(k)));
        }
    }
}

pub proof fn lemma_char_pos_bound(s: Seq<char>, c: char)
    ensures
        char_pos(s, c) <= s.len(),
    decreases s.len(),
{
    if s.len() > 0 && s[0] != c {
        lemma_char_pos_bound(s.drop_first(), c);
    }
}

proof fn lemma_utf8_len_prepend(c: char, s: Seq<char>)
    ensures
        utf8_len(seq![c] + s) == char_bytes(c) + utf8_len(s),
    decreases s.len(),
{
    let t = seq![c] + s;
    if s.len() == 0 {
        assert(t.drop_last() =~= Seq::<char>::empty());
        assert(t.last() == c);
        assert(s =~= Seq::<char>::empty());
        assert(utf8_len(Seq::<char>::empty()) == 0);
    } else {
        lemma_utf8_len_prepend(c, s.drop_last());
        assert(t.drop_last() =~= seq![c] + s.drop_last());
        assert(t.last() == s.last());
    }
}

/// The byte count of a text is the length of its UTF-8 encoding.
pub proof fn lemma_utf8_len_encoding(s: Seq<char>)
    ensures
        vstd::utf8::encode_utf8(s).len() == utf8_len(s),
    decreases s.len(),
{
    if s.len() > 0 {
        lemma_utf8_len_encoding(s.drop_first());
        lemma_utf8_len_prepend(s[0], s.drop_first());
        assert(seq![s[0]] + s.drop_first() =~= s);
        vstd::utf8::char_is_scalar(s[0]);
        let u = s[0] as u32;
        assert(vstd::utf8::encode_scalar(u).len() == char_bytes(s[0]));
    }
}

/// `str::len`: the number of bytes of the text.
pub fn byte_len(s: &str) -> (r: usize)
    ensures
        r == utf8_len(s@),
{
    proof {
        lemma_utf8_len_encoding(s@);
    }
    s.as_bytes().len()
}

} // verus!
