//! Bounded, shell-free file discovery and text search. The caller walks the
//! directory tree and reads files; each entry and each file goes through this
//! scan, which decides what is skipped, what matches, when budgets run out and
//! what the answer is.
use vstd::prelude::*;
use crate::text::{utf8_text, push_str, push_decimal, digits, str_lines, lines_of, string_of, seq_join, strings_view, join, chars_of,
    utf8_len, byte_len};
use crate::json::str_eq;

verus! {

/// Files larger than this are skipped with a warning.
pub const MAX_FILE_BYTES: usize = 2097152;
/// Bytes read over a whole scan before it stops.
pub const MAX_SCAN_BYTES: usize = 67108864;
/// Directory entries visited before a scan stops.
pub const MAX_ENTRIES: usize = 20000;
/// Bytes of results an answer carries at most.
pub const MAX_OUTPUT_BYTES: usize = 32768;

#[verifier::external_type_specification]
#[verifier::external_body]
pub struct ExGlobPattern(glob::Pattern);

#[verifier::external_type_specification]
#[verifier::external_body]
pub struct ExRegex(regex::Regex);

/// `glob::Pattern::new`: `None` for a valid pattern, else the error's text.
pub uninterp spec fn glob_parse(pattern: Seq<char>) -> Option<Seq<char>>;

/// `glob::Pattern::matches_path_with` with case-sensitive matching, literal
/// separators and no special leading dot.
pub uninterp spec fn glob_match(pattern: Seq<char>, path: Seq<char>) -> bool;

/// The characters that `regex_syntax::is_meta_character` names.
pub open spec fn regex_meta(c: char) -> bool {
    c == '\\' || c == '.' || c == '+' || c == '*' || c == '?' || c == '(' || c == ')' || c == '|'
        || c == '[' || c == ']' || c == '{' || c == '}' || c == '^' || c == '$' || c == '#' || c == '&'
        || c == '-' || c == '~'
}

/// What `regex::escape` returns: each meta character preceded by a backslash.
pub open spec fn regex_escaped(text: Seq<char>) -> Seq<char>
    decreases text.len(),
{
    if text.len() == 0 {
        Seq::empty()
    } else {
        regex_escaped(text.drop_last()) + if regex_meta(text.last()) {
            seq!['\\', text.last()]
        } else {
            seq![text.last()]
        }
    }
}

/// `regex::RegexBuilder::build` with the case option and a 2 MiB size limit:
/// `None` when it compiles, else the error's text.
pub uninterp spec fn regex_build(source: Seq<char>, ignore_case: bool) -> Option<Seq<char>>;

/// `regex::Regex::is_match` of the regex built from the source.
pub uninterp spec fn regex_match(source: Seq<char>, ignore_case: bool, line: Seq<char>) -> bool;

/// A glob pattern with the text it was compiled from.
pub struct CompiledGlob {
    text: String,
    pattern: glob::Pattern,
}

impl CompiledGlob {
    pub closed spec fn source(&self) -> Seq<char> {
        self.text@
    }
}

/// A regex with the source and case option it was built from.
pub struct CompiledRegex {
    source: String,
    ignore_case: bool,
    regex: regex::Regex,
}

impl CompiledRegex {
    pub closed spec fn source(&self) -> Seq<char> {
        self.source@
    }

    pub closed spec fn ignores_case(&self) -> bool {
        self.ignore_case
    }
}

/// `glob::Pattern::new`, keeping the pattern's text with it.
#[verifier::external_body]
fn compile_glob(text: &str) -> (r: Result<CompiledGlob, String>)
    ensures
        match r {
            Ok(g) => glob_parse(text@) is None && g.source() == text@,
            Err(e) => glob_parse(text@) == Some(e@),
        },
{
    glob::Pattern::new(text)
        .map(|pattern| CompiledGlob { text: text.to_owned(), pattern })
        .map_err(|e| e.to_string())
}

/// `glob::Pattern::matches_path_with` on a relative path.
#[verifier::external_body]
fn glob_matches(g: &CompiledGlob, path: &str) -> (r: bool)
    ensures
        r == glob_match(g.source(), path@),
{
    let options = glob::MatchOptions {
        case_sensitive: true,
        require_literal_separator: true,
        require_literal_leading_dot: false,
    };
    g.pattern.matches_path_with(std::path::Path::new(path), options)
}

/// `regex::escape`, which puts a backslash before every meta character, as its
/// source (`regex_syntax::escape_into`) shows.
#[verifier::external_body]
fn escape_regex(text: &str) -> (r: String)
    ensures
        r@ == regex_escaped(text@),
{
    regex::escape(text)
}

/// `regex::RegexBuilder` with the case option and a 2 MiB size limit.
#[verifier::external_body]
fn compile_regex(source: &str, ignore_case: bool) -> (r: Result<CompiledRegex, String>)
    ensures
        match r {
            Ok(x) => regex_build(source@, ignore_case) is None && x.source() == source@ && x.ignores_case() == ignore_case,
            Err(e) => regex_build(source@, ignore_case) == Some(e@),
        },
{
    regex::RegexBuilder::new(source)
        .case_insensitive(ignore_case)
        .size_limit(2 * 1024 * 1024)
        .build()
        .map(|regex| CompiledRegex { source: source.to_owned(), ignore_case, regex })
        .map_err(|e| e.to_string())
}

/// `regex::Regex::is_match`.
#[verifier::external_body]
fn regex_is_match(x: &CompiledRegex, line: &str) -> (r: bool)
    ensures
        r == regex_match(x.source(), x.ignores_case(), line@),
{
    x.regex.is_match(line)
}


/// What the caller does with a directory entry.
#[derive(Debug, Clone, Copy, PartialEq, Eq, Structural)]
pub enum EntryStep {
    /// Go on with the next entry.
    Next,
    /// Go on, without descending into this directory.
    SkipDir,
    /// Read the file (at most 2 MiB and one byte) and hand it to `file`.
    Read,
    /// The output budget is spent: stop the walk.
    Stop,
}

/// The state of a scan.
pub struct SearchScan {
    glob: CompiledGlob,
    grep: Option<CompiledRegex>,
    limit: usize,
    hidden: bool,
    results: Vec<String>,
    truncated: bool,
    skipped_files: usize,
    warnings: Vec<String>,
    bytes: usize,
    visited: usize,
    scanned_bytes: usize,
}

pub struct SearchScanV {
    pub limit: nat,
    pub hidden: bool,
    pub grep: bool,
    pub results: Seq<Seq<char>>,
    pub truncated: bool,
    pub skipped_files: nat,
    pub warnings: Seq<Seq<char>>,
    pub bytes: nat,
    pub visited: nat,
    pub scanned_bytes: nat,
}

impl View for SearchScan {
    type V = SearchScanV;

    closed spec fn view(&self) -> SearchScanV {
        SearchScanV {
            limit: self.limit as nat,
            hidden: self.hidden,
            grep: self.grep is Some,
            results: strings_view(self.results@),
            truncated: self.truncated,
            skipped_files: self.skipped_files as nat,
            warnings: strings_view(self.warnings@),
            bytes: self.bytes as nat,
            visited: self.visited as nat,
            scanned_bytes: self.scanned_bytes as nat,
        }
    }
}

/// A result joins unless the limit or the output budget is reached; then
/// the scan is truncated.
pub open spec fn push_spec(s: SearchScanV, text: Seq<char>) -> (SearchScanV, bool) {
    let bytes = utf8_len(text) + 1;
    if s.results.len() == s.limit || s.bytes + bytes > MAX_OUTPUT_BYTES {
        (SearchScanV { truncated: true, ..s }, false)
    } else {
        (SearchScanV { bytes: s.bytes + bytes, results: s.results.push(text), ..s }, true)
    }
}

/// A skipped file; the first five reasons are kept.
pub open spec fn warn_spec(s: SearchScanV, message: Seq<char>) -> SearchScanV {
    SearchScanV {
        skipped_files: s.skipped_files + 1,
        warnings: if s.warnings.len() < 5 { s.warnings.push(message) } else { s.warnings },
        ..s
    }
}

pub open spec fn excluded_name(name: Seq<char>, is_dir: bool, hidden: bool) -> bool {
    ||| name == ".git"@
    ||| (!hidden && name.len() > 0 && name[0] == '.')
    ||| (is_dir && (name == "node_modules"@ || name == "target"@))
}

/// A lowercase hexadecimal digit.
pub open spec fn hex_digit(d: int) -> char {
    if d < 10 { ((48 + d) as u8) as char } else { ((87 + d) as u8) as char }
}

/// How `serde_json` writes one character inside a string: quote and backslash
/// escaped, the five named controls as `\b \t \n \f \r`, other controls as
/// `\u00XX`, everything else as it is.
pub open spec fn json_escaped_char(c: char) -> Seq<char> {
    let u = c as u32;
    if c == '"' {
        seq!['\\', '"']
    } else if c == '\\' {
        seq!['\\', '\\']
    } else if u == 8 {
        seq!['\\', 'b']
    } else if u == 9 {
        seq!['\\', 't']
    } else if u == 10 {
        seq!['\\', 'n']
    } else if u == 12 {
        seq!['\\', 'f']
    } else if u == 13 {
        seq!['\\', 'r']
    } else if u < 32 {
        seq!['\\', 'u', '0', '0', hex_digit(u as int / 16), hex_digit(u as int % 16)]
    } else {
        seq![c]
    }
}

pub open spec fn json_escaped(s: Seq<char>) -> Seq<char>
    decreases s.len(),
{
    if s.len() == 0 {
        Seq::empty()
    } else {
        json_escaped(s.drop_last()) + json_escaped_char(s.last())
    }
}

/// `serde_json::to_string` of a string: its JSON text, quoted and escaped.
pub open spec fn json_string_text(s: Seq<char>) -> Seq<char> {
    seq!['"'] + json_escaped(s) + seq!['"']
}

pub open spec fn view_inv(s: SearchScanV) -> bool {
    &&& s.results.len() <= s.limit <= 1000
    &&& s.bytes <= MAX_OUTPUT_BYTES
    &&& s.warnings.len() <= 5
    &&& s.visited <= MAX_ENTRIES
    &&& s.scanned_bytes <= MAX_SCAN_BYTES + MAX_FILE_BYTES + 1
}

/// `serde_json::to_string` of a string (`format_escaped_str` in its source),
/// which never fails for a string.
#[verifier::external_body]
fn string_json(s: &str) -> (r: String)
    ensures
        r@ == json_string_text(s@),
{
    serde_json::to_string(s).unwrap_or_default()
}

pub open spec fn hit_text(path: Seq<char>, line: nat, text: Seq<char>) -> Seq<char> {
    "{\"line\":"@ + digits(line) + ",\"path\":"@ + json_string_text(path) + ",\"text\":"@ + json_string_text(text) + "}"@
}

pub open spec fn incomplete_warning() -> Seq<char> {
    "Results incomplete: narrow path/pattern/glob or raise limit (maximum 1000). Scan and output budgets also apply."@
}

pub open spec fn answer_text(s: SearchScanV) -> Seq<char> {
    let warnings = if s.truncated { s.warnings.push(incomplete_warning()) } else { s.warnings };
    "{\"results\":["@ + seq_join(s.results, ","@) + "],\"truncated\":"@ + (if s.truncated { "true"@ } else { "false"@ })
        + ",\"skipped_files\":"@ + digits(s.skipped_files) + ",\"warnings\":["@ + seq_join(
        warnings.map_values(|w: Seq<char>| json_string_text(w)),
        ","@,
    ) + "]}"@
}

/// The matching lines of a file, in order, each as a result until the output
/// budget stops the scan.
pub open spec fn lines_step(
    s: SearchScanV,
    path: Seq<char>,
    lines: Seq<Seq<char>>,
    source: Seq<char>,
    ignore_case: bool,
) -> (SearchScanV, bool)
    decreases lines.len(),
{
    if lines.len() == 0 {
        (s, true)
    } else {
        let (s1, ok) = lines_step(s, path, lines.drop_last(), source, ignore_case);
        if !ok {
            (s1, false)
        } else if regex_match(source, ignore_case, lines.last()) {
            push_spec(s1, hit_text(path, lines.len(), lines.last()))
        } else {
            (s1, true)
        }
    }
}

proof fn lemma_lines_stopped(s: SearchScanV, path: Seq<char>, lines: Seq<Seq<char>>, source: Seq<char>, ic: bool, k: int)
    requires
        0 <= k <= lines.len(),
        !lines_step(s, path, lines.take(k), source, ic).1,
    ensures
        lines_step(s, path, lines, source, ic) == lines_step(s, path, lines.take(k), source, ic),
    decreases lines.len() - k,
{
    if k < lines.len() {
        assert(lines.take(k + 1).drop_last() =~= lines.take(k));
        lemma_lines_stopped(s, path, lines, source, ic, k + 1);
    } else {
        assert(lines.take(k) =~= lines);
    }
}

/// How a scan starts: the glob must be a valid, non-empty pattern; for a text
/// search the pattern must be non-empty and compile (escaped when literal).
pub open spec fn start_error(glob: Seq<char>, grep: Option<(Seq<char>, bool, bool)>) -> Option<Seq<char>> {
    if glob.len() == 0 {
        Some("pattern must not be empty"@)
    } else if glob_parse(glob) is Some {
        Some("invalid glob: "@ + glob_parse(glob).unwrap())
    } else {
        match grep {
            None => None,
            Some((p, literal, ignore_case)) => if p.len() == 0 {
                Some("pattern must not be empty"@)
            } else {
                let source = if literal { regex_escaped(p) } else { p };
                match regex_build(source, ignore_case) {
                    Some(e) => Some("invalid regex: "@ + e),
                    None => None,
                }
            },
        }
    }
}

impl SearchScan {
    pub closed spec fn wf(&self) -> bool {
        view_inv(self@) && (self@.grep == self.grep is Some)
    }

    /// The glob the scan matches paths against.
    pub closed spec fn glob_source(&self) -> Seq<char> {
        self.glob.source()
    }

    /// The text pattern and its case option, for a text search.
    pub closed spec fn grep_of(&self) -> Option<(Seq<char>, bool)> {
        match self.grep {
            Some(x) => Some((x.source(), x.ignores_case())),
            None => None,
        }
    }

    /// A scan for a glob pattern, and a text pattern for `grep`, returning at
    /// most `limit` results (default 200, at most 1000).
    pub fn new(glob: &str, grep: Option<(&str, bool, bool)>, limit: Option<usize>, hidden: bool) -> (r: Result<Self, String>)
        requires
            limit matches Some(l) ==> l > 0,
        ensures
            match start_error(glob@, match grep { Some((p, l, c)) => Some((p@, l, c)), None => None }) {
                Some(e) => r matches Err(x) && x@ == e,
                None => r matches Ok(s) && s.wf() && s@.limit == (match limit {
                    Some(l) => if l < 1000 { l as nat } else { 1000 },
                    None => 200,
                }) && s@.hidden == hidden && s@.grep == grep is Some && s@.results.len() == 0 && !s@.truncated
                    && s@.skipped_files == 0 && s@.warnings.len() == 0 && s@.bytes == 0 && s@.visited == 0
                    && s@.scanned_bytes == 0,
            },
    {
        if glob.is_empty() {
            return Err("pattern must not be empty".to_owned());
        }
        let g = match compile_glob(glob) {
            Ok(g) => g,
            Err(e) => {
                let mut t = String::new();
                push_str(&mut t, "invalid glob: ");
                push_str(&mut t, e.as_str());
                return Err(t);
            },
        };
        let matcher = match grep {
            None => None,
            Some((p, literal, ignore_case)) => {
                if p.is_empty() {
                    return Err("pattern must not be empty".to_owned());
                }
                let source = if literal { escape_regex(p) } else { p.to_owned() };
                match compile_regex(source.as_str(), ignore_case) {
                    Ok(x) => Some(x),
                    Err(e) => {
                        let mut t = String::new();
                        push_str(&mut t, "invalid regex: ");
                        push_str(&mut t, e.as_str());
                        return Err(t);
                    },
                }
            },
        };
        let limit = match limit {
            Some(l) => if l < 1000 { l } else { 1000 },
            None => 200,
        };
        let s = SearchScan {
            glob: g,
            grep: matcher,
            limit,
            hidden,
            results: Vec::new(),
            truncated: false,
            skipped_files: 0,
            warnings: Vec::new(),
            bytes: 0,
            visited: 0,
            scanned_bytes: 0,
        };
        proof {
            assert(strings_view(s.results@) =~= Seq::<Seq<char>>::empty());
            assert(strings_view(s.warnings@) =~= Seq::<Seq<char>>::empty());
        }
        Ok(s)
    }

    fn push(&mut self, text: String) -> (r: bool)
        requires
            old(self).wf(),
        ensures
            final(self).wf(),
            (final(self)@, r) == push_spec(old(self)@, text@),
            final(self).glob_source() == old(self).glob_source(),
            final(self).grep_of() == old(self).grep_of(),
    {
        let bytes = byte_len(text.as_str());
        if self.results.len() == self.limit || bytes >= MAX_OUTPUT_BYTES || self.bytes + bytes + 1 > MAX_OUTPUT_BYTES {
            self.truncated = true;
            return false;
        }
        let ghost prev = strings_view(self.results@);
        self.bytes = self.bytes + bytes + 1;
        self.results.push(text);
        proof {
            assert(strings_view(self.results@) =~= prev.push(text@));
        }
        true
    }

    /// Records a file or entry that could not be used.
    pub fn warn(&mut self, message: String)
        requires
            old(self).wf(),
            old(self)@.skipped_files < usize::MAX,
        ensures
            final(self).wf(),
            final(self)@ == warn_spec(old(self)@, message@),
            final(self).glob_source() == old(self).glob_source(),
            final(self).grep_of() == old(self).grep_of(),
    {
        self.skipped_files = self.skipped_files + 1;
        if self.warnings.len() < 5 {
            let ghost prev = strings_view(self.warnings@);
            self.warnings.push(message);
            proof {
                assert(strings_view(self.warnings@) =~= prev.push(message@));
            }
        }
    }

    /// Counts the next entry of the walk; `false` when the entry or scan
    /// budget is spent, and the results are then incomplete.
    pub fn take_entry(&mut self) -> (r: bool)
        requires
            old(self).wf(),
        ensures
            final(self).wf(),
            final(self).glob_source() == old(self).glob_source(),
            final(self).grep_of() == old(self).grep_of(),
            r == (old(self)@.visited < MAX_ENTRIES && old(self)@.scanned_bytes < MAX_SCAN_BYTES),
            r ==> final(self)@ == (SearchScanV { visited: old(self)@.visited + 1, ..old(self)@ }),
            !r ==> final(self)@ == (SearchScanV { truncated: true, ..old(self)@ }),
    {
        if self.visited == MAX_ENTRIES || self.scanned_bytes >= MAX_SCAN_BYTES {
            self.truncated = true;
            return false;
        }
        self.visited = self.visited + 1;
        true
    }

    /// Decides on an entry of the walk at `depth` below the search root: its
    /// file name, kind, full path (for results and warnings) and path relative
    /// to the root (matched against the glob).
    pub fn entry(&mut self, depth: usize, name: &str, is_dir: bool, is_file: bool, path: &str, relative: &str) -> (r: EntryStep)
        requires
            old(self).wf(),
            old(self)@.skipped_files < usize::MAX,
        ensures
            final(self).wf(),
            final(self).glob_source() == old(self).glob_source(),
            final(self).grep_of() == old(self).grep_of(),
            ({
                let s = old(self)@;
                if depth > 0 && excluded_name(name@, is_dir, s.hidden) {
                    final(self)@ == s && r == (if is_dir { EntryStep::SkipDir } else { EntryStep::Next })
                } else {
                    let s1 = if is_dir && depth == 64 {
                        warn_spec(SearchScanV { truncated: true, ..s }, path@ + ": depth limit reached"@)
                    } else {
                        s
                    };
                    if !is_file || !glob_match(old(self).glob_source(), relative@) {
                        final(self)@ == s1 && r == EntryStep::Next
                    } else if s.grep {
                        final(self)@ == s1 && r == EntryStep::Read
                    } else {
                        let (s2, ok) = push_spec(s1, json_string_text(path@));
                        final(self)@ == s2 && r == (if ok { EntryStep::Next } else { EntryStep::Stop })
                    }
                }
            }),
    {
        if depth > 0 {
            let excluded = str_eq(name, ".git") || (!self.hidden && starts_with_dot(name)) || (is_dir && (str_eq(
                name,
                "node_modules",
            ) || str_eq(name, "target")));
            if excluded {
                return if is_dir { EntryStep::SkipDir } else { EntryStep::Next };
            }
        }
        if is_dir && depth == 64 {
            self.truncated = true;
            let mut m = String::new();
            push_str(&mut m, path);
            push_str(&mut m, ": depth limit reached");
            self.warn(m);
        }
        if !is_file || !glob_matches(&self.glob, relative) {
            return EntryStep::Next;
        }
        if self.grep.is_some() {
            return EntryStep::Read;
        }
        let text = string_json(path);
        if self.push(text) {
            EntryStep::Next
        } else {
            EntryStep::Stop
        }
    }

    /// Scans a file that was read for a text search: what could not be read or
    /// is not UTF-8 text is skipped; each matching line becomes a result.
    /// `false` when the output budget stopped the scan.
    pub fn file(&mut self, path: &str, read: Result<Vec<u8>, String>) -> (r: bool)
        requires
            old(self).wf(),
            old(self).grep_of() is Some,
            old(self)@.skipped_files < usize::MAX,
            old(self)@.scanned_bytes < MAX_SCAN_BYTES,
            read matches Ok(b) ==> b@.len() <= MAX_FILE_BYTES + 1,
        ensures
            final(self).wf(),
            final(self).glob_source() == old(self).glob_source(),
            final(self).grep_of() == old(self).grep_of(),
            match read {
                Err(e) => final(self)@ == warn_spec(old(self)@, path@ + ": "@ + e@) && r,
                Ok(b) => {
                    let s0 = SearchScanV { scanned_bytes: old(self)@.scanned_bytes + b@.len(), ..old(self)@ };
                    if b@.len() > MAX_FILE_BYTES {
                        final(self)@ == warn_spec(s0, path@ + ": exceeds 2 MiB"@) && r
                    } else if b@.contains(0u8) || !vstd::utf8::valid_utf8(b@) {
                        final(self)@ == (SearchScanV { skipped_files: s0.skipped_files + 1, ..s0 }) && r
                    } else {
                        (final(self)@, r) == lines_step(
                            s0,
                            path@,
                            str_lines(vstd::utf8::decode_utf8(b@)),
                            old(self).grep_of()->Some_0.0,
                            old(self).grep_of()->Some_0.1,
                        )
                    }
                },
            },
    {
        let ghost read_v = read;
        let bytes = match read {
            Err(e) => {
                let mut m = String::new();
                push_str(&mut m, path);
                push_str(&mut m, ": ");
                push_str(&mut m, e.as_str());
                self.warn(m);
                return true;
            },
            Ok(b) => b,
        };
        self.scanned_bytes = self.scanned_bytes + bytes.len();
        if bytes.len() > MAX_FILE_BYTES {
            let mut m = String::new();
            push_str(&mut m, path);
            push_str(&mut m, ": exceeds 2 MiB");
            self.warn(m);
            return true;
        }
        let mut z: usize = 0;
        while z < bytes.len() && bytes[z] != 0
            invariant
                z <= bytes@.len(),
                forall|j: int| 0 <= j < z ==> bytes@[j] != 0u8,
            decreases bytes@.len() - z,
        {
            z = z + 1;
        }
        let text = if z < bytes.len() {
            None
        } else {
            utf8_text(bytes.as_slice())
        };
        let text = match text {
            None => {
                proof {
                    if z < bytes@.len() {
                        assert(bytes@[z as int] == 0u8);
                        assert(bytes@.contains(0u8));
                    }
                }
                self.skipped_files = self.skipped_files + 1;
                return true;
            },
            Some(t) => t,
        };
        proof {
            assert(!bytes@.contains(0u8));
        }
        let lines = lines_of(chars_of(text.as_str()).as_slice());
        let ghost lv = lines@.map_values(|l: Vec<char>| l@);
        let ghost start = self@;
        let ghost source = old(self).grep_of()->Some_0.0;
        let ghost ic = old(self).grep_of()->Some_0.1;
        let mut i: usize = 0;
        proof {
            assert(lv.take(0) =~= Seq::<Seq<char>>::empty());
            assert(read_v matches Ok(b) && b@ == bytes@);
            assert(start == (SearchScanV { scanned_bytes: old(self)@.scanned_bytes + bytes@.len(), ..old(self)@ }));
        }
        while i < lines.len()
            invariant
                i <= lines@.len(),
                read_v matches Ok(b) && b@ == bytes@,
                read_v == read,
                start == (SearchScanV { scanned_bytes: old(self)@.scanned_bytes + bytes@.len(), ..old(self)@ }),
                bytes@.len() <= MAX_FILE_BYTES,
                !bytes@.contains(0u8),
                vstd::utf8::valid_utf8(bytes@),
                lv == lines@.map_values(|l: Vec<char>| l@),
                lv == str_lines(vstd::utf8::decode_utf8(bytes@)),
                self.wf(),
                self.glob_source() == old(self).glob_source(),
                self.grep_of() == old(self).grep_of(),
                self.grep is Some,
                source == self.grep->Some_0.source(),
                ic == self.grep->Some_0.ignores_case(),
                (self@, true) == lines_step(start, path@, lv.take(i as int), source, ic),
            decreases lines@.len() - i,
        {
            proof {
                assert(lv.take(i as int + 1).drop_last() =~= lv.take(i as int));
                assert(lv.take(i as int + 1).last() == lines@[i as int]@);
            }
            let line = string_of(lines[i].as_slice());
            let matched = match &self.grep {
                Some(x) => regex_is_match(x, line.as_str()),
                None => false,
            };
            if matched {
                let mut hit = String::new();
                push_str(&mut hit, "{\"line\":");
                push_decimal(&mut hit, (i as u64) + 1);
                push_str(&mut hit, ",\"path\":");
                let p = string_json(path);
                push_str(&mut hit, p.as_str());
                push_str(&mut hit, ",\"text\":");
                let t = string_json(line.as_str());
                push_str(&mut hit, t.as_str());
                push_str(&mut hit, "}");
                proof {
                    assert(hit@ =~= hit_text(path@, (i + 1) as nat, lv[i as int]));
                }
                let ghost before = self@;
                proof {
                    assert(regex_match(source, ic, lv[i as int]));
                    assert(lv.take(i as int + 1).len() == i + 1);
                    assert(lines_step(start, path@, lv.take(i as int + 1), source, ic) == push_spec(
                        before,
                        hit_text(path@, (i + 1) as nat, lv[i as int]),
                    ));
                }
                if !self.push(hit) {
                    proof {
                        lemma_lines_stopped(start, path@, lv, source, ic, i as int + 1);
                        assert((self@, false) == lines_step(start, path@, lv, source, ic));
                    }
                    return false;
                }
            }
            i = i + 1;
        }
        proof {
            assert(lv.take(lines@.len() as int) =~= lv);
        }
        true
    }

    /// The answer: the results, whether they are complete, how many files were
    /// skipped and why (the first five).
    pub fn finish(self) -> (r: String)
        requires
            self.wf(),
        ensures
            r@ == answer_text(self@),
    {
        let mut warnings = self.warnings;
        let ghost wv = strings_view(warnings@);
        if self.truncated {
            warnings.push(
                "Results incomplete: narrow path/pattern/glob or raise limit (maximum 1000). Scan and output budgets also apply.".to_owned(),
            );
        }
        let ghost all = strings_view(warnings@);
        proof {
            if self.truncated {
                assert(all =~= wv.push(incomplete_warning()));
            } else {
                assert(all =~= wv);
            }
        }
        let mut encoded: Vec<String> = Vec::new();
        let mut i: usize = 0;
        while i < warnings.len()
            invariant
                i <= warnings@.len(),
                all == strings_view(warnings@),
                strings_view(encoded@) == all.take(i as int).map_values(|w: Seq<char>| json_string_text(w)),
            decreases warnings@.len() - i,
        {
            let ghost prev = strings_view(encoded@);
            let e = string_json(warnings[i].as_str());
            let ghost ev = e@;
            encoded.push(e);
            proof {
                assert(all[i as int] == warnings@[i as int]@);
                assert(ev == json_string_text(all[i as int]));
                assert(strings_view(encoded@) =~= prev.push(ev));
                assert(all.take(i as int + 1) =~= all.take(i as int).push(all[i as int]));
                assert(all.take(i as int + 1).map_values(|w: Seq<char>| json_string_text(w)) =~= all.take(i as int).map_values(
                    |w: Seq<char>| json_string_text(w),
                ).push(json_string_text(all[i as int])));
            }
            i = i + 1;
        }
        proof {
            assert(all.take(warnings@.len() as int) =~= all);
        }
        let mut out = String::new();
        push_str(&mut out, "{\"results\":[");
        let joined = join(&self.results, ",");
        push_str(&mut out, joined.as_str());
        push_str(&mut out, "],\"truncated\":");
        push_str(&mut out, if self.truncated { "true" } else { "false" });
        push_str(&mut out, ",\"skipped_files\":");
        push_decimal(&mut out, self.skipped_files as u64);
        push_str(&mut out, ",\"warnings\":[");
        let ws = join(&encoded, ",");
        push_str(&mut out, ws.as_str());
        push_str(&mut out, "]}");
        proof {
            assert(out@ =~= answer_text(self@));
        }
        out
    }
}

/// A scan never holds more results than its limit (at most 1000) nor more than
/// 32 KiB of them, and keeps at most five skip reasons, whatever it is fed.
pub proof fn law_results_stay_within_budget(s: &SearchScan)
    requires
        s.wf(),
    ensures
        s@.results.len() <= s@.limit <= 1000,
        s@.bytes <= MAX_OUTPUT_BYTES,
        s@.warnings.len() <= 5,
{
}

fn starts_with_dot(name: &str) -> (r: bool)
    ensures
        r == (name@.len() > 0 && name@[0] == '.'),
{
    let cs = chars_of(name);
    cs.len() > 0 && cs[0] == '.'
}

} // verus!
