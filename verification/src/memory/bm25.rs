//! Tokenization for the memory search index.
use vstd::prelude::*;
use crate::text::{is_ascii_alnum, ascii_lower, is_ascii_alphanumeric, to_ascii_lowercase, chars_of, string_of, push_char};

verus! {

/// CJK ideographs, kana and Hangul syllables.
pub open spec fn cjk(c: char) -> bool {
    let u = c as u32;
    (0x3400 <= u && u <= 0x4DBF) || (0x4E00 <= u && u <= 0x9FFF) || (0xF900 <= u && u <= 0xFAFF) || (0x3040
        <= u && u <= 0x30FF) || (0xAC00 <= u && u <= 0xD7AF)
}

pub fn is_cjk(c: char) -> (r: bool)
    ensures
        r == cjk(c),
{
    let u = c as u32;
    (0x3400 <= u && u <= 0x4DBF) || (0x4E00 <= u && u <= 0x9FFF) || (0xF900 <= u && u <= 0xFAFF) || (0x3040
        <= u && u <= 0x30FF) || (0xAC00 <= u && u <= 0xD7AF)
}

/// The scan after a prefix of the text: the tokens emitted so far, the Latin run
/// being collected (lowercased), and the CJK character just read, if any.
pub open spec fn scan(s: Seq<char>) -> (Seq<Seq<char>>, Seq<char>, Option<char>)
    decreases s.len(),
{
    if s.len() == 0 {
        (Seq::empty(), Seq::empty(), None)
    } else {
        let (tokens, latin, prev) = scan(s.drop_last());
        let c = s.last();
        if is_ascii_alnum(c) {
            (tokens, latin.push(ascii_lower(c)), None)
        } else {
            let flushed = if latin.len() > 0 { tokens.push(latin) } else { tokens };
            if cjk(c) {
                let with_bigram = match prev {
                    Some(p) => flushed.push(seq![p, c]),
                    None => flushed,
                };
                (with_bigram.push(seq![c]), Seq::empty(), Some(c))
            } else {
                (flushed, Seq::empty(), None)
            }
        }
    }
}

/// Latin alphanumeric runs (lowercased) plus CJK unigrams and bigrams, in reading
/// order.
pub open spec fn tokens_of(s: Seq<char>) -> Seq<Seq<char>> {
    let (tokens, latin, _) = scan(s);
    if latin.len() > 0 {
        tokens.push(latin)
    } else {
        tokens
    }
}

/// The character at `i` is a CJK character.
pub open spec fn cjk_at(s: Seq<char>, i: int) -> bool {
    0 <= i < s.len() && cjk(s[i])
}

/// The characters at `i` and `i + 1` are both CJK characters.
pub open spec fn cjk_pair_at(s: Seq<char>, i: int) -> bool {
    0 <= i && i + 1 < s.len() && cjk(s[i]) && cjk(s[i + 1])
}

/// A token made of one CJK character of `s`, or of two adjacent ones.
pub open spec fn cjk_token_from(s: Seq<char>, t: Seq<char>) -> bool {
    ||| exists|i: int| #[trigger] cjk_at(s, i) && t == seq![s[i]]
    ||| exists|i: int| #[trigger] cjk_pair_at(s, i) && t == seq![s[i], s[i + 1]]
}

/// How many CJK characters `s` holds.
pub open spec fn cjk_count(s: Seq<char>) -> nat
    decreases s.len(),
{
    if s.len() == 0 {
        0
    } else {
        cjk_count(s.drop_last()) + if cjk(s.last()) { 1nat } else { 0nat }
    }
}

/// How many positions of `s` start two adjacent CJK characters.
pub open spec fn pair_count(s: Seq<char>) -> nat
    decreases s.len(),
{
    if s.len() < 2 {
        0
    } else {
        pair_count(s.drop_last()) + if cjk(s[s.len() - 2]) && cjk(s[s.len() - 1]) { 1nat } else { 0nat }
    }
}

/// How many tokens have `n` characters and start with a CJK character.
pub open spec fn grams(toks: Seq<Seq<char>>, n: nat) -> nat
    decreases toks.len(),
{
    if toks.len() == 0 {
        0
    } else {
        grams(toks.drop_last(), n) + if toks.last().len() == n && cjk(toks.last()[0]) { 1nat } else { 0nat }
    }
}

proof fn lemma_latin_not_cjk(c: char)
    requires
        is_ascii_alnum(c),
    ensures
        !cjk(c),
        !cjk(ascii_lower(c)),
{
    if 'A' <= c && c <= 'Z' {
        let u = c as u32;
        assert((c as u8) as u32 == u);
    }
}

proof fn lemma_push_token(toks: Seq<Seq<char>>, x: Seq<char>)
    ensures
        forall|k: int| 0 <= k < toks.len() ==> toks.push(x)[k] == toks[k],
        forall|t: Seq<char>| toks.contains(t) ==> #[trigger] toks.push(x).contains(t),
        toks.push(x).contains(x),
        grams(toks.push(x), 1) == grams(toks, 1) + if x.len() == 1 && cjk(x[0]) { 1nat } else { 0nat },
        grams(toks.push(x), 2) == grams(toks, 2) + if x.len() == 2 && cjk(x[0]) { 1nat } else { 0nat },
{
    let p = toks.push(x);
    assert(p.drop_last() =~= toks);
    assert forall|t: Seq<char>| toks.contains(t) implies #[trigger] p.contains(t) by {
        let k = choose|k: int| 0 <= k < toks.len() && toks[k] == t;
        assert(p[k] == t);
    }
    assert(p[toks.len() as int] == x);
}

proof fn lemma_from_prefix(s: Seq<char>, t: Seq<char>)
    requires
        s.len() > 0,
        cjk_token_from(s.drop_last(), t),
    ensures
        cjk_token_from(s, t),
{
    let init = s.drop_last();
    if exists|i: int| #[trigger] cjk_at(init, i) && t == seq![init[i]] {
        let i = choose|i: int| #[trigger] cjk_at(init, i) && t == seq![init[i]];
        assert(init[i] == s[i]);
        assert(cjk_at(s, i));
    } else {
        let i = choose|i: int| #[trigger] cjk_pair_at(init, i) && t == seq![init[i], init[i + 1]];
        assert(init[i] == s[i] && init[i + 1] == s[i + 1]);
        assert(cjk_pair_at(s, i));
    }
}

/// What the scan has gathered after any prefix of the text.
#[verifier::rlimit(60)]
proof fn lemma_scan_cjk(s: Seq<char>)
    ensures
        ({
            let (toks, latin, prev) = scan(s);
            &&& prev == (if s.len() > 0 && cjk(s.last()) { Some(s.last()) } else { None::<char> })
            &&& forall|j: int| 0 <= j < latin.len() ==> !cjk(#[trigger] latin[j])
            &&& forall|i: int| #[trigger] cjk_at(s, i) ==> toks.contains(seq![s[i]])
            &&& forall|i: int| #[trigger] cjk_pair_at(s, i) ==> toks.contains(seq![s[i], s[i + 1]])
            &&& forall|k: int| 0 <= k < toks.len() && (#[trigger] toks[k]).len() > 0 && cjk(toks[k][0]) ==> cjk_token_from(s, toks[k])
            &&& grams(toks, 1) == cjk_count(s)
            &&& grams(toks, 2) == pair_count(s)
        }),
    decreases s.len(),
{
    if s.len() > 0 {
        let init = s.drop_last();
        lemma_scan_cjk(init);
        let (toks0, latin0, prev0) = scan(init);
        let (toks, latin, prev) = scan(s);
        let c = s.last();
        let n = s.len() as int;
        assert(forall|i: int| 0 <= i < n - 1 ==> #[trigger] s[i] == init[i]);
        assert forall|i: int| 0 <= i < n - 1 && #[trigger] cjk_at(init, i) implies cjk_at(s, i) by {}
        assert forall|k: int| 0 <= k < toks0.len() && (#[trigger] toks0[k]).len() > 0 && cjk(toks0[k][0]) implies cjk_token_from(s, toks0[k]) by {
            lemma_from_prefix(s, toks0[k]);
        }
        if n >= 2 {
            assert(s[n - 2] == init.last());
        }
        if is_ascii_alnum(c) {
            lemma_latin_not_cjk(c);
            assert forall|j: int| 0 <= j < latin.len() implies !cjk(#[trigger] latin[j]) by {
                if j < latin0.len() {
                    assert(latin[j] == latin0[j]);
                }
            }
            assert forall|i: int| #[trigger] cjk_at(s, i) implies toks.contains(seq![s[i]]) by {
                assert(cjk_at(init, i));
            }
            assert forall|i: int| #[trigger] cjk_pair_at(s, i) implies toks.contains(seq![s[i], s[i + 1]]) by {
                assert(cjk_pair_at(init, i));
            }
        } else {
            let flushed = if latin0.len() > 0 { toks0.push(latin0) } else { toks0 };
            if latin0.len() > 0 {
                lemma_push_token(toks0, latin0);
                assert(!cjk(latin0[0]));
            }
            assert forall|i: int| #[trigger] cjk_at(init, i) implies flushed.contains(seq![init[i]]) by {}
            assert forall|i: int| #[trigger] cjk_pair_at(init, i) implies flushed.contains(seq![init[i], init[i + 1]]) by {}
            assert forall|k: int| 0 <= k < flushed.len() && (#[trigger] flushed[k]).len() > 0 && cjk(flushed[k][0]) implies cjk_token_from(s, flushed[k]) by {
                if k < toks0.len() {
                    assert(flushed[k] == toks0[k]);
                }
            }
            if cjk(c) {
                let with_bigram = match prev0 {
                    Some(p) => flushed.push(seq![p, c]),
                    None => flushed,
                };
                match prev0 {
                    Some(p) => {
                        lemma_push_token(flushed, seq![p, c]);
                        assert(cjk_pair_at(s, n - 2));
                        assert(seq![p, c] == seq![s[n - 2], s[n - 1]]);
                    },
                    None => {},
                }
                assert forall|k: int| 0 <= k < with_bigram.len() && (#[trigger] with_bigram[k]).len() > 0 && cjk(with_bigram[k][0]) implies cjk_token_from(s, with_bigram[k]) by {
                    if k < flushed.len() {
                        assert(with_bigram[k] == flushed[k]);
                    } else {
                        assert(cjk_pair_at(s, n - 2));
                    }
                }
                lemma_push_token(with_bigram, seq![c]);
                assert(cjk_at(s, n - 1));
                assert(toks == with_bigram.push(seq![c]));
                assert forall|k: int| 0 <= k < toks.len() && (#[trigger] toks[k]).len() > 0 && cjk(toks[k][0]) implies cjk_token_from(s, toks[k]) by {
                    if k < with_bigram.len() {
                        assert(toks[k] == with_bigram[k]);
                    } else {
                        assert(toks[k] == seq![s[n - 1]]);
                    }
                }
                assert forall|i: int| #[trigger] cjk_at(s, i) implies toks.contains(seq![s[i]]) by {
                    if i < n - 1 {
                        assert(cjk_at(init, i));
                        assert(flushed.contains(seq![init[i]]));
                        if prev0 is Some {
                            assert(with_bigram.contains(seq![init[i]]));
                        }
                    }
                }
                assert forall|i: int| #[trigger] cjk_pair_at(s, i) implies toks.contains(seq![s[i], s[i + 1]]) by {
                    if i + 1 < n - 1 {
                        assert(cjk_pair_at(init, i));
                        assert(flushed.contains(seq![init[i], init[i + 1]]));
                        if prev0 is Some {
                            assert(with_bigram.contains(seq![init[i], init[i + 1]]));
                        }
                    } else {
                        assert(i == n - 2);
                        assert(prev0 is Some);
                        assert(with_bigram.contains(seq![s[n - 2], s[n - 1]]));
                    }
                }
            } else {
                assert(toks == flushed);
                assert forall|i: int| #[trigger] cjk_at(s, i) implies toks.contains(seq![s[i]]) by {
                    assert(cjk_at(init, i));
                }
                assert forall|i: int| #[trigger] cjk_pair_at(s, i) implies toks.contains(seq![s[i], s[i + 1]]) by {
                    assert(cjk_pair_at(init, i));
                }
            }
        }
    }
}

proof fn lemma_lower_alnum(c: char)
    requires
        is_ascii_alnum(c),
    ensures
        lower_alnum(ascii_lower(c)),
{
    if 'A' <= c && c <= 'Z' {
        let u = c as u32;
        assert((c as u8) as u32 == u);
        assert(((c as u8) + 32) as char as u32 == u + 32);
    }
}

proof fn lemma_push_word(toks: Seq<Seq<char>>, x: Seq<char>)
    ensures
        word_count(toks.push(x)) == word_count(toks) + if word_token(x) { 1nat } else { 0nat },
        word_chars(toks.push(x)) == word_chars(toks) + if word_token(x) { x } else { Seq::empty() },
{
    assert(toks.push(x).drop_last() =~= toks);
}

/// What the scan has made of the ASCII letters and digits after any prefix.
#[verifier::rlimit(40)]
proof fn lemma_scan_words(s: Seq<char>)
    ensures
        ({
            let (toks, latin, prev) = scan(s);
            &&& forall|k: int| 0 <= k < toks.len() ==> (#[trigger] toks[k]).len() > 0
            &&& forall|k: int, j: int| 0 <= k < toks.len() && word_token(toks[k]) && 0 <= j < toks[k].len() ==> lower_alnum(#[trigger] toks[k][j])
            &&& forall|j: int| 0 <= j < latin.len() ==> lower_alnum(#[trigger] latin[j])
            &&& (latin.len() > 0 <==> s.len() > 0 && is_ascii_alnum(s.last()))
            &&& word_chars(toks) + latin == lowered_alnum(s)
            &&& word_count(toks) + (if latin.len() > 0 { 1nat } else { 0nat }) == run_count(s)
        }),
    decreases s.len(),
{
    if s.len() > 0 {
        let init = s.drop_last();
        lemma_scan_words(init);
        let (toks0, latin0, prev0) = scan(init);
        let (toks, latin, prev) = scan(s);
        let c = s.last();
        if s.len() >= 2 {
            assert(s[s.len() - 2] == init.last());
        }
        if is_ascii_alnum(c) {
            lemma_lower_alnum(c);
            assert forall|j: int| 0 <= j < latin.len() implies lower_alnum(#[trigger] latin[j]) by {
                if j < latin0.len() {
                    assert(latin[j] == latin0[j]);
                }
            }
            assert(word_chars(toks) + latin =~= (word_chars(toks0) + latin0) + seq![ascii_lower(c)]);
        } else {
            let flushed = if latin0.len() > 0 { toks0.push(latin0) } else { toks0 };
            if latin0.len() > 0 {
                lemma_push_word(toks0, latin0);
                lemma_latin_not_cjk_first(latin0);
                assert(word_chars(flushed) =~= word_chars(toks0) + latin0);
            } else {
                assert(word_chars(toks0) + latin0 =~= word_chars(toks0));
            }
            assert forall|k: int| 0 <= k < flushed.len() implies (#[trigger] flushed[k]).len() > 0 by {
                if k < toks0.len() {
                    assert(flushed[k] == toks0[k]);
                }
            }
            assert forall|k: int, j: int| 0 <= k < flushed.len() && word_token(flushed[k]) && 0 <= j < flushed[k].len() implies lower_alnum(#[trigger] flushed[k][j]) by {
                if k < toks0.len() {
                    assert(flushed[k] == toks0[k]);
                }
            }
            assert(lowered_alnum(s) == lowered_alnum(init) + Seq::<char>::empty());
            assert(lowered_alnum(s) =~= lowered_alnum(init));
            if cjk(c) {
                let with_bigram = match prev0 {
                    Some(p) => flushed.push(seq![p, c]),
                    None => flushed,
                };
                match prev0 {
                    Some(p) => {
                        lemma_push_word(flushed, seq![p, c]);
                        assert(!word_token(seq![p, c]));
                    },
                    None => {},
                }
                lemma_push_word(with_bigram, seq![c]);
                assert(!word_token(seq![c]));
                assert(toks == with_bigram.push(seq![c]));
                assert(word_chars(toks) + latin =~= word_chars(flushed));
                assert forall|k: int| 0 <= k < toks.len() implies (#[trigger] toks[k]).len() > 0 by {
                    if k < flushed.len() {
                        assert(toks[k] == flushed[k]);
                    } else if k < with_bigram.len() {
                        assert(toks[k] == with_bigram[k]);
                    }
                }
                assert forall|k: int, j: int| 0 <= k < toks.len() && word_token(toks[k]) && 0 <= j < toks[k].len() implies lower_alnum(#[trigger] toks[k][j]) by {
                    if k < flushed.len() {
                        assert(toks[k] == flushed[k]);
                    } else if k < with_bigram.len() {
                        assert(toks[k] == with_bigram[k]);
                    }
                }
            } else {
                assert(toks == flushed);
                assert(word_chars(toks) + latin =~= word_chars(flushed));
            }
        }
    }
}

proof fn lemma_latin_not_cjk_first(latin: Seq<char>)
    requires
        latin.len() > 0,
        lower_alnum(latin[0]),
    ensures
        word_token(latin),
{
}

/// The words of a text are its maximal runs of ASCII letters and digits,
/// lowercased: there are as many words as runs, every word is a nonempty run of
/// lowercase letters and digits, and the words one after the other are the
/// text's letters and digits, lowercased, in order.
pub proof fn law_tokens_words(s: Seq<char>)
    ensures
        forall|k: int| 0 <= k < tokens_of(s).len() ==> (#[trigger] tokens_of(s)[k]).len() > 0,
        forall|k: int, j: int| 0 <= k < tokens_of(s).len() && word_token(tokens_of(s)[k]) && 0 <= j < tokens_of(s)[k].len()
            ==> lower_alnum(#[trigger] tokens_of(s)[k][j]),
        word_count(tokens_of(s)) == run_count(s),
        word_chars(tokens_of(s)) == lowered_alnum(s),
{
    lemma_scan_words(s);
    let (toks, latin, prev) = scan(s);
    if latin.len() > 0 {
        lemma_push_word(toks, latin);
        let t = toks.push(latin);
        assert forall|k: int| 0 <= k < t.len() implies (#[trigger] t[k]).len() > 0 by {
            if k < toks.len() {
                assert(t[k] == toks[k]);
            }
        }
        assert forall|k: int, j: int| 0 <= k < t.len() && word_token(t[k]) && 0 <= j < t[k].len() implies lower_alnum(#[trigger] t[k][j]) by {
            if k < toks.len() {
                assert(t[k] == toks[k]);
            }
        }
    } else {
        assert(word_chars(toks) + latin =~= word_chars(toks));
    }
}

/// Every CJK character of a text is a token, and so is every pair of adjacent
/// CJK characters; every token that starts with a CJK character is one of
/// these; and there are exactly as many one-character CJK tokens as CJK
/// characters, and as many two-character ones as adjacent CJK pairs.
pub proof fn law_tokens_cover_cjk(s: Seq<char>)
    ensures
        forall|i: int| #[trigger] cjk_at(s, i) ==> tokens_of(s).contains(seq![s[i]]),
        forall|i: int| #[trigger] cjk_pair_at(s, i) ==> tokens_of(s).contains(seq![s[i], s[i + 1]]),
        forall|k: int| 0 <= k < tokens_of(s).len() && (#[trigger] tokens_of(s)[k]).len() > 0 && cjk(tokens_of(s)[k][0])
            ==> cjk_token_from(s, tokens_of(s)[k]),
        grams(tokens_of(s), 1) == cjk_count(s),
        grams(tokens_of(s), 2) == pair_count(s),
{
    lemma_scan_cjk(s);
    let (toks, latin, prev) = scan(s);
    if latin.len() > 0 {
        lemma_push_token(toks, latin);
        assert(!cjk(latin[0]));
        assert forall|k: int| 0 <= k < tokens_of(s).len() && (#[trigger] tokens_of(s)[k]).len() > 0 && cjk(tokens_of(s)[k][0])
            implies cjk_token_from(s, tokens_of(s)[k]) by {
            if k < toks.len() {
                assert(tokens_of(s)[k] == toks[k]);
            }
        }
    }
}

/// A lowercase ASCII letter or an ASCII digit.
pub open spec fn lower_alnum(c: char) -> bool {
    ('0' <= c && c <= '9') || ('a' <= c && c <= 'z')
}

/// How many maximal runs of ASCII letters and digits `s` holds.
pub open spec fn run_count(s: Seq<char>) -> nat
    decreases s.len(),
{
    if s.len() == 0 {
        0
    } else {
        run_count(s.drop_last()) + if is_ascii_alnum(s.last()) && (s.len() == 1 || !is_ascii_alnum(s[s.len() - 2])) {
            1nat
        } else {
            0nat
        }
    }
}

/// The ASCII letters and digits of `s`, lowercased, in order.
pub open spec fn lowered_alnum(s: Seq<char>) -> Seq<char>
    decreases s.len(),
{
    if s.len() == 0 {
        Seq::empty()
    } else {
        lowered_alnum(s.drop_last()) + if is_ascii_alnum(s.last()) { seq![ascii_lower(s.last())] } else { Seq::empty() }
    }
}

/// A token that does not start with a CJK character.
pub open spec fn word_token(t: Seq<char>) -> bool {
    t.len() > 0 && !cjk(t[0])
}

/// How many tokens are words.
pub open spec fn word_count(toks: Seq<Seq<char>>) -> nat
    decreases toks.len(),
{
    if toks.len() == 0 {
        0
    } else {
        word_count(toks.drop_last()) + if word_token(toks.last()) { 1nat } else { 0nat }
    }
}

/// The words, one after the other.
pub open spec fn word_chars(toks: Seq<Seq<char>>) -> Seq<char>
    decreases toks.len(),
{
    if toks.len() == 0 {
        Seq::empty()
    } else {
        word_chars(toks.drop_last()) + if word_token(toks.last()) { toks.last() } else { Seq::empty() }
    }
}

pub open spec fn strings_view(v: Seq<String>) -> Seq<Seq<char>> {
    v.map_values(|s: String| s@)
}

/// Latin alphanumeric runs (lowercased) plus CJK unigrams and bigrams.
pub fn tokenize(text: &str) -> (r: Vec<String>)
    ensures
        strings_view(r@) == tokens_of(text@),
{
    let cs = chars_of(text);
    let mut tokens: Vec<String> = Vec::new();
    let mut latin: Vec<char> = Vec::new();
    let mut prev_cjk: Option<char> = None;
    let mut i: usize = 0;
    proof {
        assert(cs@.take(0) =~= Seq::<char>::empty());
    }
    while i < cs.len()
        invariant
            i <= cs@.len(),
            cs@ == text@,
            scan(cs@.take(i as int)) == (strings_view(tokens@), latin@, prev_cjk),
        decreases cs@.len() - i,
    {
        let c = cs[i];
        proof {
            assert(cs@.take(i as int + 1).drop_last() =~= cs@.take(i as int));
            assert(cs@.take(i as int + 1).last() == c);
        }
        if is_ascii_alphanumeric(c) {
            prev_cjk = None;
            latin.push(to_ascii_lowercase(c));
        } else {
            if latin.len() > 0 {
                let t = string_of(latin.as_slice());
                let ghost prev = tokens@;
                tokens.push(t);
                proof {
                    assert(strings_view(tokens@) =~= strings_view(prev).push(latin@));
                }
                latin = Vec::new();
            }
            if is_cjk(c) {
                match prev_cjk {
                    Some(p) => {
                        let mut bigram = String::new();
                        push_char(&mut bigram, p);
                        push_char(&mut bigram, c);
                        let ghost prev = tokens@;
                        tokens.push(bigram);
                        proof {
                            assert(bigram@ =~= seq![p, c]);
                            assert(strings_view(tokens@) =~= strings_view(prev).push(seq![p, c]));
                        }
                    },
                    None => {},
                }
                let mut uni = String::new();
                push_char(&mut uni, c);
                let ghost prev = tokens@;
                tokens.push(uni);
                proof {
                    assert(uni@ =~= seq![c]);
                    assert(strings_view(tokens@) =~= strings_view(prev).push(seq![c]));
                }
                prev_cjk = Some(c);
            } else {
                prev_cjk = None;
            }
        }
        i = i + 1;
    }
    proof {
        assert(cs@.take(cs@.len() as int) =~= cs@);
    }
    if latin.len() > 0 {
        let t = string_of(latin.as_slice());
        let ghost prev = tokens@;
        tokens.push(t);
        proof {
            assert(strings_view(tokens@) =~= strings_view(prev).push(latin@));
        }
    }
    tokens
}

/// How often a term occurs in a tokenized document.
pub open spec fn count_in(doc: Seq<Seq<char>>, t: Seq<char>) -> nat
    decreases doc.len(),
{
    if doc.len() == 0 {
        0
    } else {
        count_in(doc.drop_last(), t) + if doc.last() == t { 1nat } else { 0nat }
    }
}

/// How many documents contain a term.
pub open spec fn docs_with(docs: Seq<Seq<Seq<char>>>, t: Seq<char>) -> nat
    decreases docs.len(),
{
    if docs.len() == 0 {
        0
    } else {
        docs_with(docs.drop_last(), t) + if count_in(docs.last(), t) > 0 { 1nat } else { 0nat }
    }
}

/// The total length of the documents.
pub open spec fn total_len(docs: Seq<Seq<Seq<char>>>) -> nat
    decreases docs.len(),
{
    if docs.len() == 0 {
        0
    } else {
        total_len(docs.drop_last()) + docs.last().len()
    }
}

/// The count that a table of distinct terms records for a term; absent terms count zero.
pub open spec fn table_get<N>(table: Seq<(String, N)>, t: Seq<char>, f: spec_fn(N) -> nat) -> nat
    decreases table.len(),
{
    if table.len() == 0 {
        0
    } else if table.last().0@ == t {
        f(table.last().1)
    } else {
        table_get(table.drop_last(), t, f)
    }
}

/// Each term appears once in a table and with a positive count.
pub open spec fn table_wf<N>(table: Seq<(String, N)>, f: spec_fn(N) -> nat) -> bool {
    &&& forall|i: int, j: int| 0 <= i < j < table.len() ==> table[i].0@ != table[j].0@
    &&& forall|i: int| 0 <= i < table.len() ==> f(#[trigger] table[i].1) > 0
}

pub open spec fn nat_of_u32(n: u32) -> nat {
    n as nat
}

pub open spec fn nat_of_usize(n: usize) -> nat {
    n as nat
}

pub open spec fn docs_view(docs: Seq<Vec<String>>) -> Seq<Seq<Seq<char>>> {
    docs.map_values(|d: Vec<String>| strings_view(d@))
}

proof fn lemma_table_get_at<N>(table: Seq<(String, N)>, t: Seq<char>, f: spec_fn(N) -> nat, k: int)
    requires
        table_wf(table, f),
        0 <= k < table.len(),
        table[k].0@ == t,
    ensures
        table_get(table, t, f) == f(table[k].1),
    decreases table.len(),
{
    if k < table.len() - 1 {
        assert(table.last().0@ != t);
        lemma_table_get_at(table.drop_last(), t, f, k);
    }
}

proof fn lemma_table_get_absent<N>(table: Seq<(String, N)>, t: Seq<char>, f: spec_fn(N) -> nat)
    requires
        forall|i: int| 0 <= i < table.len() ==> (#[trigger] table[i]).0@ != t,
    ensures
        table_get(table, t, f) == 0,
    decreases table.len(),
{
    if table.len() > 0 {
        assert(table.last() == table[table.len() - 1]);
        lemma_table_get_absent(table.drop_last(), t, f);
    }
}

/// Replacing the count of the entry at `k` changes the count of its term only.
proof fn lemma_table_update<N>(table: Seq<(String, N)>, k: int, n: N, t: Seq<char>, f: spec_fn(N) -> nat)
    requires
        table_wf(table, f),
        0 <= k < table.len(),
        f(n) > 0,
    ensures
        table_wf(table.update(k, (table[k].0, n)), f),
        table_get(table.update(k, (table[k].0, n)), t, f) == if t == table[k].0@ { f(n) } else { table_get(table, t, f) },
{
    let u = table.update(k, (table[k].0, n));
    assert forall|i: int, j: int| 0 <= i < j < u.len() implies u[i].0@ != u[j].0@ by {
        assert(u[i].0 == table[i].0 && u[j].0 == table[j].0);
    }
    assert forall|i: int| 0 <= i < u.len() implies f(#[trigger] u[i].1) > 0 by {
        if i != k {
            assert(u[i] == table[i]);
        }
    }
    if t == table[k].0@ {
        lemma_table_get_at(u, t, f, k);
    } else {
        let m = choose|m: int| 0 <= m < table.len() && table[m].0@ == t;
        if exists|m: int| 0 <= m < table.len() && table[m].0@ == t {
            lemma_table_get_at(table, t, f, m);
            assert(u[m] == table[m]);
            lemma_table_get_at(u, t, f, m);
        } else {
            lemma_table_get_absent(table, t, f);
            assert forall|i: int| 0 <= i < u.len() implies (#[trigger] u[i]).0@ != t by {
                if i != k {
                    assert(u[i] == table[i]);
                }
            }
            lemma_table_get_absent(u, t, f);
        }
    }
}

/// Appending an entry for a new term counts that term only.
proof fn lemma_table_push<N>(table: Seq<(String, N)>, key: String, n: N, t: Seq<char>, f: spec_fn(N) -> nat)
    requires
        table_wf(table, f),
        forall|i: int| 0 <= i < table.len() ==> (#[trigger] table[i]).0@ != key@,
        f(n) > 0,
    ensures
        table_wf(table.push((key, n)), f),
        table_get(table.push((key, n)), t, f) == if t == key@ { f(n) } else { table_get(table, t, f) },
{
    let u = table.push((key, n));
    assert(u.drop_last() =~= table);
    assert forall|i: int, j: int| 0 <= i < j < u.len() implies u[i].0@ != u[j].0@ by {
        assert(u[i] == table[i]);
        if j < table.len() {
            assert(u[j] == table[j]);
        }
    }
    assert forall|i: int| 0 <= i < u.len() implies f(#[trigger] u[i].1) > 0 by {
        if i < table.len() {
            assert(u[i] == table[i]);
        }
    }
}

/// The position of a term in a table, if it has one.
fn table_find<N>(table: &Vec<(String, N)>, t: &str) -> (r: Option<usize>)
    ensures
        r matches Some(k) ==> k < table@.len() && table@[k as int].0@ == t@,
        r is None ==> forall|i: int| 0 <= i < table@.len() ==> (#[trigger] table@[i]).0@ != t@,
{
    let mut i: usize = 0;
    while i < table.len()
        invariant
            i <= table@.len(),
            forall|k: int| 0 <= k < i ==> (#[trigger] table@[k]).0@ != t@,
        decreases table@.len() - i,
    {
        if crate::json::str_eq(table[i].0.as_str(), t) {
            return Some(i);
        }
        i = i + 1;
    }
    None
}

/// The statistics of a BM25 index over tokenized documents: per document the
/// count of each term and the length, per term the number of documents that hold
/// it, and the total length. Scoring with them is floating-point arithmetic,
/// done by the caller.
#[derive(Debug)]
pub struct Bm25Index {
    doc_tfs: Vec<Vec<(String, u32)>>,
    doc_lens: Vec<usize>,
    doc_freqs: Vec<(String, usize)>,
    total: usize,
}

impl Bm25Index {
    pub closed spec fn tf_view(&self, i: int, t: Seq<char>) -> nat {
        table_get(self.doc_tfs@[i]@, t, |n: u32| nat_of_u32(n))
    }

    pub closed spec fn df_view(&self, t: Seq<char>) -> nat {
        table_get(self.doc_freqs@, t, |n: usize| nat_of_usize(n))
    }

    pub closed spec fn lens_view(&self) -> Seq<usize> {
        self.doc_lens@
    }

    pub closed spec fn total_view(&self) -> nat {
        self.total as nat
    }

    pub closed spec fn wf(&self) -> bool {
        &&& self.doc_tfs@.len() == self.doc_lens@.len()
        &&& forall|i: int| 0 <= i < self.doc_tfs@.len() ==> table_wf((#[trigger] self.doc_tfs@[i])@, |n: u32| nat_of_u32(n))
        &&& table_wf(self.doc_freqs@, |n: usize| nat_of_usize(n))
    }

    /// Counts every document's terms. Documents are at most `u32::MAX` tokens
    /// long and their lengths add up within `usize`.
    pub fn build(docs: &Vec<Vec<String>>) -> (r: Self)
        requires
            forall|i: int| 0 <= i < docs@.len() ==> (#[trigger] docs@[i])@.len() <= u32::MAX,
            total_len(docs_view(docs@)) <= usize::MAX,
        ensures
            r.wf(),
            r.lens_view().len() == docs@.len(),
            forall|i: int| 0 <= i < docs@.len() ==> (#[trigger] r.lens_view()[i]) == docs@[i]@.len(),
            forall|i: int, t: Seq<char>| 0 <= i < docs@.len() ==> #[trigger] r.tf_view(i, t) == count_in(docs_view(docs@)[i], t),
            forall|t: Seq<char>| #[trigger] r.df_view(t) == docs_with(docs_view(docs@), t),
            r.total_view() == total_len(docs_view(docs@)),
    {
        let ghost dv = docs_view(docs@);
        let ghost ftf = |n: u32| nat_of_u32(n);
        let ghost fdf = |n: usize| nat_of_usize(n);
        let mut doc_tfs: Vec<Vec<(String, u32)>> = Vec::new();
        let mut doc_lens: Vec<usize> = Vec::new();
        let mut doc_freqs: Vec<(String, usize)> = Vec::new();
        let mut total: usize = 0;
        let mut d: usize = 0;
        proof {
            assert(dv.take(0) =~= Seq::<Seq<Seq<char>>>::empty());
        }
        while d < docs.len()
            invariant
                d <= docs@.len(),
                dv == docs_view(docs@),
                ftf == (|n: u32| nat_of_u32(n)),
                fdf == (|n: usize| nat_of_usize(n)),
                forall|i: int| 0 <= i < docs@.len() ==> (#[trigger] docs@[i])@.len() <= u32::MAX,
                total_len(dv) <= usize::MAX,
                doc_tfs@.len() == d,
                doc_lens@.len() == d,
                forall|i: int| 0 <= i < d ==> table_wf((#[trigger] doc_tfs@[i])@, ftf),
                forall|i: int| 0 <= i < d ==> (#[trigger] doc_lens@[i]) == docs@[i]@.len(),
                forall|i: int, t: Seq<char>| 0 <= i < d ==> #[trigger] table_get(doc_tfs@[i]@, t, ftf) == count_in(dv[i], t),
                table_wf(doc_freqs@, fdf),
                forall|t: Seq<char>| #[trigger] table_get(doc_freqs@, t, fdf) == docs_with(dv.take(d as int), t),
                total == total_len(dv.take(d as int)),
            decreases docs@.len() - d,
        {
            let doc = &docs[d];
            let ghost dd = dv[d as int];
            proof {
                assert(dd == strings_view(doc@));
            }
            let mut tf: Vec<(String, u32)> = Vec::new();
            let mut k: usize = 0;
            proof {
                assert(dd.take(0) =~= Seq::<Seq<char>>::empty());
            }
            while k < doc.len()
                invariant
                    k <= doc@.len(),
                    doc@.len() <= u32::MAX,
                    dd == strings_view(doc@),
                    ftf == (|n: u32| nat_of_u32(n)),
                    table_wf(tf@, ftf),
                    forall|t: Seq<char>| #[trigger] table_get(tf@, t, ftf) == count_in(dd.take(k as int), t),
                    forall|t: Seq<char>| #[trigger] count_in(dd.take(k as int), t) <= k,
                decreases doc@.len() - k,
            {
                let token = doc[k].as_str();
                let ghost before = tf@;
                proof {
                    assert(dd.take(k as int + 1).drop_last() =~= dd.take(k as int));
                    assert(dd.take(k as int + 1).last() == token@);
                }
                match table_find(&tf, token) {
                    Some(j) => {
                        let c = tf[j].1;
                        proof {
                            assert(ftf(c) == c as nat);
                            assert(table_get(before, token@, ftf) == c) by {
                                lemma_table_get_at(before, token@, ftf, j as int);
                            }
                            assert(count_in(dd.take(k as int), token@) <= k);
                        }
                        let key = tf[j].0.clone();
                        tf.set(j, (key, c + 1));
                        proof {
                            lemma_table_update(before, j as int, (c + 1) as u32, token@, ftf);
                            assert forall|t: Seq<char>| #[trigger] table_get(tf@, t, ftf) == count_in(dd.take(k as int + 1), t) by {
                                lemma_table_update(before, j as int, (c + 1) as u32, t, ftf);
                            }
                        }
                    },
                    None => {
                        let key = doc[k].clone();
                        tf.push((key, 1));
                        proof {
                            lemma_table_get_absent(before, token@, ftf);
                            lemma_table_push(before, key, 1u32, token@, ftf);
                            assert forall|t: Seq<char>| #[trigger] table_get(tf@, t, ftf) == count_in(dd.take(k as int + 1), t) by {
                                lemma_table_push(before, key, 1u32, t, ftf);
                                if t == token@ {
                                    lemma_table_get_absent(before, t, ftf);
                                }
                            }
                        }
                    },
                }
                proof {
                    assert forall|t: Seq<char>| #[trigger] count_in(dd.take(k as int + 1), t) <= k + 1 by {
                        assert(count_in(dd.take(k as int), t) <= k);
                    }
                }
                k = k + 1;
            }
            proof {
                assert(dd.take(k as int) =~= dd);
            }
            let ghost freqs0 = doc_freqs@;
            proof {
                assert forall|t: Seq<char>| #[trigger] table_get(freqs0, t, fdf) <= d by {
                    law_document_frequency_bounded(dv.take(d as int), t);
                }
            }
            let mut m: usize = 0;
            while m < tf.len()
                invariant
                    m <= tf@.len(),
                    fdf == (|n: usize| nat_of_usize(n)),
                    ftf == (|n: u32| nat_of_u32(n)),
                    table_wf(tf@, ftf),
                    table_wf(doc_freqs@, fdf),
                    d < docs@.len(),
                    docs@.len() <= usize::MAX,
                    forall|t: Seq<char>| #[trigger] table_get(freqs0, t, fdf) <= d,
                    forall|t: Seq<char>| #[trigger] table_get(doc_freqs@, t, fdf)
                        == table_get(freqs0, t, fdf) + if (exists|j: int| 0 <= j < m && tf@[j].0@ == t) { 1nat } else { 0nat },
                decreases tf@.len() - m,
            {
                let term = tf[m].0.as_str();
                let ghost before = doc_freqs@;
                proof {
                    assert(!(exists|j: int| 0 <= j < m && tf@[j].0@ == term@)) by {
                        if exists|j: int| 0 <= j < m && tf@[j].0@ == term@ {
                            let j = choose|j: int| 0 <= j < m && tf@[j].0@ == term@;
                            assert(tf@[j].0@ != tf@[m as int].0@);
                        }
                    }
                    assert(table_get(before, term@, fdf) == table_get(freqs0, term@, fdf));
                    assert(table_get(freqs0, term@, fdf) <= d);
                }
                match table_find(&doc_freqs, term) {
                    Some(j) => {
                        let c = doc_freqs[j].1;
                        proof {
                            lemma_table_get_at(before, term@, fdf, j as int);
                            assert(fdf(c) == c as nat);
                            assert(c <= d);
                        }
                        let key = doc_freqs[j].0.clone();
                        doc_freqs.set(j, (key, c + 1));
                        proof {
                            assert forall|t: Seq<char>| #[trigger] table_get(doc_freqs@, t, fdf)
                                == table_get(freqs0, t, fdf) + if (exists|i: int| 0 <= i < m + 1 && tf@[i].0@ == t) { 1nat } else { 0nat } by {
                                lemma_table_update(before, j as int, (c + 1) as usize, t, fdf);
                                if t == term@ {
                                    assert(tf@[m as int].0@ == t);
                                } else if exists|i: int| 0 <= i < m + 1 && tf@[i].0@ == t {
                                    let i = choose|i: int| 0 <= i < m + 1 && tf@[i].0@ == t;
                                    assert(i < m);
                                }
                            }
                            lemma_table_update(before, j as int, (c + 1) as usize, term@, fdf);
                        }
                    },
                    None => {
                        let key = tf[m].0.clone();
                        doc_freqs.push((key, 1));
                        proof {
                            lemma_table_push(before, key, 1usize, term@, fdf);
                            assert forall|t: Seq<char>| #[trigger] table_get(doc_freqs@, t, fdf)
                                == table_get(freqs0, t, fdf) + if (exists|i: int| 0 <= i < m + 1 && tf@[i].0@ == t) { 1nat } else { 0nat } by {
                                lemma_table_push(before, key, 1usize, t, fdf);
                                if t == term@ {
                                    lemma_table_get_absent(before, t, fdf);
                                    assert(tf@[m as int].0@ == t);
                                } else if exists|i: int| 0 <= i < m + 1 && tf@[i].0@ == t {
                                    let i = choose|i: int| 0 <= i < m + 1 && tf@[i].0@ == t;
                                    assert(i < m);
                                }
                            }
                        }
                    },
                }
                m = m + 1;
            }
            proof {
                assert(dv.take(d as int + 1).drop_last() =~= dv.take(d as int));
                assert(dv.take(d as int + 1).last() == dd);
                assert forall|t: Seq<char>| #[trigger] table_get(doc_freqs@, t, fdf) == docs_with(dv.take(d as int + 1), t) by {
                    if count_in(dd, t) > 0 {
                        if !(exists|j: int| 0 <= j < m && tf@[j].0@ == t) {
                            lemma_table_get_absent(tf@, t, ftf);
                        }
                    } else {
                        if exists|j: int| 0 <= j < m && tf@[j].0@ == t {
                            let j = choose|j: int| 0 <= j < m && tf@[j].0@ == t;
                            lemma_table_get_at(tf@, t, ftf, j);
                        }
                    }
                }
                lemma_total_len_prefix(dv, d as int);
            }
            let len = doc.len();
            total = total + len;
            doc_lens.push(len);
            doc_tfs.push(tf);
            proof {
                assert forall|i: int, t: Seq<char>| 0 <= i < d + 1 implies #[trigger] table_get(doc_tfs@[i]@, t, ftf) == count_in(dv[i], t) by {
                    if i == d {
                    }
                }
            }
            d = d + 1;
        }
        proof {
            assert(dv.take(d as int) =~= dv);
        }
        Bm25Index { doc_tfs, doc_lens, doc_freqs, total }
    }

    /// The number of documents.
    pub fn len(&self) -> (r: usize)
        requires
            self.wf(),
        ensures
            r == self.lens_view().len(),
    {
        self.doc_lens.len()
    }

    /// The length of document `i`.
    pub fn doc_len(&self, i: usize) -> (r: usize)
        requires
            i < self.lens_view().len(),
        ensures
            r == self.lens_view()[i as int],
    {
        self.doc_lens[i]
    }

    /// The total length of the documents.
    pub fn total(&self) -> (r: usize)
        ensures
            r == self.total_view(),
    {
        self.total
    }

    /// How often a term occurs in document `i`.
    pub fn tf(&self, i: usize, term: &str) -> (r: u32)
        requires
            self.wf(),
            i < self.lens_view().len(),
        ensures
            r == self.tf_view(i as int, term@),
    {
        let table = &self.doc_tfs[i];
        match table_find(table, term) {
            Some(j) => {
                proof {
                    lemma_table_get_at(table@, term@, |n: u32| nat_of_u32(n), j as int);
                }
                table[j].1
            },
            None => {
                proof {
                    lemma_table_get_absent(table@, term@, |n: u32| nat_of_u32(n));
                }
                0
            },
        }
    }

    /// How many documents contain a term.
    pub fn df(&self, term: &str) -> (r: usize)
        requires
            self.wf(),
        ensures
            r == self.df_view(term@),
    {
        match table_find(&self.doc_freqs, term) {
            Some(j) => {
                proof {
                    lemma_table_get_at(self.doc_freqs@, term@, |n: usize| nat_of_usize(n), j as int);
                }
                self.doc_freqs[j].1
            },
            None => {
                proof {
                    lemma_table_get_absent(self.doc_freqs@, term@, |n: usize| nat_of_usize(n));
                }
                0
            },
        }
    }
}

proof fn lemma_total_len_prefix(docs: Seq<Seq<Seq<char>>>, d: int)
    requires
        0 <= d < docs.len(),
    ensures
        total_len(docs.take(d + 1)) == total_len(docs.take(d)) + docs[d].len(),
        total_len(docs.take(d + 1)) <= total_len(docs),
{
    assert(docs.take(d + 1).drop_last() =~= docs.take(d));
    lemma_total_len_mono(docs, d + 1);
}

proof fn lemma_total_len_mono(docs: Seq<Seq<Seq<char>>>, k: int)
    requires
        0 <= k <= docs.len(),
    ensures
        total_len(docs.take(k)) <= total_len(docs),
    decreases docs.len() - k,
{
    if k < docs.len() {
        lemma_total_len_mono(docs, k + 1);
        assert(docs.take(k + 1).drop_last() =~= docs.take(k));
    } else {
        assert(docs.take(k) =~= docs);
    }
}

/// A document counts toward a term's document frequency exactly when it holds
/// the term, so no term is in more documents than there are.
pub proof fn law_document_frequency_bounded(docs: Seq<Seq<Seq<char>>>, t: Seq<char>)
    ensures
        docs_with(docs, t) <= docs.len(),
    decreases docs.len(),
{
    if docs.len() > 0 {
        law_document_frequency_bounded(docs.drop_last(), t);
    }
}

} // verus!
