//! The memory workspace's rules that do not touch the disk: which relative
//! paths are acceptable, which lines a range read returns, and the one-hop
//! link neighbourhood of a file.
use vstd::prelude::*;
use crate::text::{str_lines, seq_join, chars_of, lines_of};
use crate::markdown::join_lines;
use crate::agent::skills::{name_lt, name_less, lemma_name_lt_irreflexive, lemma_name_lt_total, lemma_name_lt_transitive};
use crate::json::str_eq;

verus! {

#[derive(Debug, Clone, Default)]
pub struct FileMeta {
    pub name: Option<String>,
    pub description: Option<String>,
}

#[derive(Debug, Clone)]
pub struct LinkNeighbor {
    pub path: String,
    pub name: Option<String>,
    pub description: Option<String>,
}

/// A `..` segment starts at `i`.
pub open spec fn parent_segment_at(rel: Seq<char>, i: int) -> bool {
    &&& 0 <= i
    &&& i + 2 <= rel.len()
    &&& rel[i] == '.'
    &&& rel[i + 1] == '.'
    &&& (i == 0 || rel[i - 1] == '/')
    &&& (i + 2 == rel.len() || rel[i + 2] == '/')
}

/// A workspace-relative path: not empty, not absolute, never stepping up.
pub open spec fn rel_path_ok(rel: Seq<char>) -> bool {
    &&& rel.len() > 0
    &&& rel[0] != '/'
    &&& forall|i: int| !parent_segment_at(rel, i)
}

pub fn valid_rel_path(rel: &str) -> (r: bool)
    ensures
        r == rel_path_ok(rel@),
{
    let cs = chars_of(rel);
    if cs.len() == 0 || cs[0] == '/' {
        return false;
    }
    let mut i: usize = 0;
    while i < cs.len()
        invariant
            i <= cs@.len(),
            cs@ == rel@,
            forall|j: int| 0 <= j < i ==> !parent_segment_at(cs@, j),
        decreases cs@.len() - i,
    {
        if cs.len() - i >= 2 && cs[i] == '.' && cs[i + 1] == '.' && (i == 0 || cs[i - 1] == '/') && (i + 2 == cs.len()
            || cs[i + 2] == '/') {
            proof {
                assert(parent_segment_at(cs@, i as int));
            }
            return false;
        }
        i = i + 1;
    }
    proof {
        assert forall|j: int| !parent_segment_at(cs@, j) by {
            if j >= i {
                assert(!(j + 2 <= cs@.len()));
            }
        }
    }
    true
}

/// Lines `start..=end` (1-based, `start` at least 1), clamped to the text and
/// joined by newlines; an empty range gives an empty text.
pub open spec fn line_range(text: Seq<char>, start: nat, end: nat) -> Seq<char> {
    let lines = str_lines(text);
    let s = if start < 1 { 1 } else { start };
    let hi = if end < lines.len() { end } else { lines.len() };
    if s - 1 >= hi {
        Seq::empty()
    } else {
        seq_join(lines.subrange(s - 1, hi as int), "\n"@)
    }
}

/// The lines of a file between two 1-based line numbers, inclusive.
pub fn select_lines(text: &str, start: usize, end: usize) -> (r: String)
    ensures
        r@ == line_range(text@, start as nat, end as nat),
{
    let lines = lines_of(chars_of(text).as_slice());
    let s = if start < 1 { 1 } else { start };
    let hi = if end < lines.len() { end } else { lines.len() };
    if s - 1 >= hi {
        return String::new();
    }
    join_lines(&lines, s - 1, hi)
}

/// What the index knows of a file: its frontmatter fields and the targets of
/// its links.
#[derive(Debug, Clone)]
pub struct IndexedFile {
    pub path: String,
    pub meta: FileMeta,
    pub outlinks: Vec<String>,
}

pub open spec fn has(v: Seq<String>, q: Seq<char>) -> bool {
    exists|k: int| 0 <= k < v.len() && (#[trigger] v[k])@ == q
}

pub open spec fn sorted_unique(v: Seq<String>) -> bool {
    forall|a: int, b: int| 0 <= a < b < v.len() ==> name_lt((#[trigger] v[a])@, (#[trigger] v[b])@)
}

/// The first indexed file with a path.
pub open spec fn file_at(files: Seq<IndexedFile>, path: Seq<char>) -> Option<int>
    decreases files.len(),
{
    if files.len() == 0 {
        None
    } else if files.last().path@ == path {
        match file_at(files.drop_last(), path) {
            Some(i) => Some(i),
            None => Some(files.len() - 1),
        }
    } else {
        file_at(files.drop_last(), path)
    }
}

/// One hop from a file: the targets of its links and the files linking to it.
pub open spec fn neighbour(files: Seq<IndexedFile>, rel: Seq<char>, q: Seq<char>) -> bool {
    ||| (file_at(files, rel) matches Some(i) && has(files[i].outlinks@, q))
    ||| exists|i: int| 0 <= i < files.len() && (#[trigger] files[i]).path@ == q && has(files[i].outlinks@, rel)
}

proof fn lemma_file_at(files: Seq<IndexedFile>, path: Seq<char>)
    ensures
        match file_at(files, path) {
            Some(i) => 0 <= i < files.len() && files[i].path@ == path && forall|j: int|
                0 <= j < i ==> (#[trigger] files[j]).path@ != path,
            None => forall|j: int| 0 <= j < files.len() ==> (#[trigger] files[j]).path@ != path,
        },
    decreases files.len(),
{
    if files.len() > 0 {
        lemma_file_at(files.drop_last(), path);
        assert forall|j: int| 0 <= j < files.len() - 1 implies (#[trigger] files[j]) == files.drop_last()[j] by {}
    }
}

fn find_file(files: &Vec<IndexedFile>, path: &str) -> (r: Option<usize>)
    ensures
        match r {
            Some(i) => i < files@.len() && file_at(files@, path@) == Some(i as int),
            None => file_at(files@, path@) is None,
        },
{
    proof {
        lemma_file_at(files@, path@);
    }
    let mut i: usize = 0;
    while i < files.len()
        invariant
            i <= files@.len(),
            forall|j: int| 0 <= j < i ==> (#[trigger] files@[j]).path@ != path@,
        decreases files@.len() - i,
    {
        if str_eq(files[i].path.as_str(), path) {
            proof {
                lemma_file_at(files@, path@);
                match file_at(files@, path@) {
                    Some(k) => {
                        if k < i {
                        } else if k > i {
                            assert(files@[i as int].path@ == path@);
                        }
                    },
                    None => {
                        assert(files@[i as int].path@ == path@);
                    },
                }
            }
            return Some(i);
        }
        i = i + 1;
    }
    None
}

fn contains_str(v: &Vec<String>, q: &str) -> (r: bool)
    ensures
        r == has(v@, q@),
{
    let mut i: usize = 0;
    while i < v.len()
        invariant
            i <= v@.len(),
            forall|k: int| 0 <= k < i ==> (#[trigger] v@[k])@ != q@,
        decreases v@.len() - i,
    {
        if str_eq(v[i].as_str(), q) {
            return true;
        }
        i = i + 1;
    }
    false
}

/// Adds a path to a sorted list without duplicates.
fn insert_unique(v: &mut Vec<String>, x: String)
    requires
        sorted_unique(old(v)@),
    ensures
        sorted_unique(final(v)@),
        forall|q: Seq<char>| has(final(v)@, q) <==> (has(old(v)@, q) || q == x@),
{
    let xs = chars_of(x.as_str());
    let mut i: usize = 0;
    while i < v.len() && name_less(chars_of(v[i].as_str()).as_slice(), xs.as_slice())
        invariant
            i <= v@.len(),
            xs@ == x@,
            v@ == old(v)@,
            sorted_unique(v@),
            forall|a: int| 0 <= a < i ==> name_lt((#[trigger] v@[a])@, x@),
        decreases v@.len() - i,
    {
        i = i + 1;
    }
    if i < v.len() && str_eq(v[i].as_str(), x.as_str()) {
        proof {
            assert forall|q: Seq<char>| has(v@, q) <==> (has(old(v)@, q) || q == x@) by {
                if q == x@ {
                    assert(v@[i as int]@ == q);
                }
            }
        }
        return;
    }
    let ghost before = v@;
    proof {
        if i < before.len() {
            lemma_name_lt_total(before[i as int]@, x@);
        }
    }
    v.insert(i, x);
    proof {
        let after = v@;
        assert(after =~= before.take(i as int).push(after[i as int]) + before.skip(i as int));
        assert forall|a: int, b: int| 0 <= a < b < after.len() implies name_lt((#[trigger] after[a])@, (#[trigger] after[b])@) by {
            if b < i {
                assert(after[a] == before[a] && after[b] == before[b]);
            } else if b == i {
                assert(after[a] == before[a]);
            } else if a == i {
                assert(after[b] == before[b - 1]);
                if b - 1 > i {
                    lemma_name_lt_transitive(x@, before[i as int]@, before[b - 1]@);
                }
            } else if a < i {
                assert(after[a] == before[a] && after[b] == before[b - 1]);
                if b - 1 > i {
                    lemma_name_lt_transitive(x@, before[i as int]@, before[b - 1]@);
                }
                lemma_name_lt_transitive(before[a]@, x@, before[b - 1]@);
            } else {
                assert(after[a] == before[a - 1] && after[b] == before[b - 1]);
            }
        }
        assert forall|q: Seq<char>| has(after, q) <==> (has(before, q) || q == x@) by {
            if has(after, q) {
                let k = choose|k: int| 0 <= k < after.len() && (#[trigger] after[k])@ == q;
                if k < i {
                    assert(after[k] == before[k]);
                } else if k > i {
                    assert(after[k] == before[k - 1]);
                }
            }
            if has(before, q) {
                let k = choose|k: int| 0 <= k < before.len() && (#[trigger] before[k])@ == q;
                if k < i {
                    assert(after[k] == before[k]);
                } else {
                    assert(after[k + 1] == before[k]);
                }
            }
            if q == x@ {
                assert(after[i as int]@ == q);
            }
        }
    }
}

fn clone_opt(o: &Option<String>) -> (r: Option<String>)
    ensures
        r == *o,
{
    match o {
        Some(s) => Some(s.clone()),
        None => None,
    }
}

/// The neighbours of `rel`, one per path, in path order: each with the name
/// and description of the indexed file at that path, or none.
pub fn expand_links(files: &Vec<IndexedFile>, rel: &str) -> (r: Vec<LinkNeighbor>)
    ensures
        forall|a: int, b: int| 0 <= a < b < r@.len() ==> name_lt((#[trigger] r@[a]).path@, (#[trigger] r@[b]).path@),
        forall|q: Seq<char>| (exists|k: int| 0 <= k < r@.len() && (#[trigger] r@[k]).path@ == q) <==> neighbour(files@, rel@, q),
        forall|k: int|
            0 <= k < r@.len() ==> match file_at(files@, (#[trigger] r@[k]).path@) {
                Some(i) => r@[k].name == files@[i].meta.name && r@[k].description == files@[i].meta.description,
                None => r@[k].name is None && r@[k].description is None,
            },
{
    let mut paths: Vec<String> = Vec::new();
    let own = find_file(files, rel);
    match own {
        Some(fi) => {
            let links = &files[fi].outlinks;
            let mut j: usize = 0;
            while j < links.len()
                invariant
                    j <= links@.len(),
                    links == &files@[fi as int].outlinks,
                    sorted_unique(paths@),
                    forall|q: Seq<char>| has(paths@, q) <==> exists|t: int| 0 <= t < j && (#[trigger] links@[t])@ == q,
                decreases links@.len() - j,
            {
                insert_unique(&mut paths, links[j].clone());
                proof {
                    assert forall|q: Seq<char>| has(paths@, q) <==> exists|t: int| 0 <= t < j + 1 && (#[trigger] links@[t])@ == q by {
                        if q == links@[j as int]@ {
                            assert(links@[j as int]@ == q);
                        }
                    }
                }
                j = j + 1;
            }
        },
        None => {},
    }
    let ghost own_links = |q: Seq<char>| file_at(files@, rel@) matches Some(i) && has(files@[i].outlinks@, q);
    proof {
        assert forall|q: Seq<char>| has(paths@, q) <==> own_links(q) by {}
    }
    let mut i: usize = 0;
    while i < files.len()
        invariant
            i <= files@.len(),
            sorted_unique(paths@),
            forall|q: Seq<char>|
                has(paths@, q) <==> (own_links(q) || exists|k: int|
                    0 <= k < i && (#[trigger] files@[k]).path@ == q && has(files@[k].outlinks@, rel@)),
        decreases files@.len() - i,
    {
        if contains_str(&files[i].outlinks, rel) {
            insert_unique(&mut paths, files[i].path.clone());
            proof {
                assert forall|q: Seq<char>|
                    has(paths@, q) <==> (own_links(q) || exists|k: int|
                        0 <= k < i + 1 && (#[trigger] files@[k]).path@ == q && has(files@[k].outlinks@, rel@)) by {
                    if q == files@[i as int].path@ {
                        assert(files@[i as int].path@ == q);
                    }
                }
            }
        } else {
            proof {
                assert forall|q: Seq<char>|
                    has(paths@, q) <==> (own_links(q) || exists|k: int|
                        0 <= k < i + 1 && (#[trigger] files@[k]).path@ == q && has(files@[k].outlinks@, rel@)) by {
                    if exists|k: int| 0 <= k < i + 1 && (#[trigger] files@[k]).path@ == q && has(files@[k].outlinks@, rel@) {
                        let k = choose|k: int| 0 <= k < i + 1 && (#[trigger] files@[k]).path@ == q && has(files@[k].outlinks@, rel@);
                        assert(k != i);
                    }
                }
            }
        }
        i = i + 1;
    }
    let mut out: Vec<LinkNeighbor> = Vec::new();
    let mut k: usize = 0;
    while k < paths.len()
        invariant
            k <= paths@.len(),
            out@.len() == k,
            forall|a: int| 0 <= a < k ==> (#[trigger] out@[a]).path@ == paths@[a]@,
            forall|a: int|
                0 <= a < k ==> match file_at(files@, (#[trigger] out@[a]).path@) {
                    Some(fi) => out@[a].name == files@[fi].meta.name && out@[a].description == files@[fi].meta.description,
                    None => out@[a].name is None && out@[a].description is None,
                },
        decreases paths@.len() - k,
    {
        let p = paths[k].clone();
        let n = match find_file(files, p.as_str()) {
            Some(fi) => LinkNeighbor {
                path: p,
                name: clone_opt(&files[fi].meta.name),
                description: clone_opt(&files[fi].meta.description),
            },
            None => LinkNeighbor { path: p, name: None, description: None },
        };
        out.push(n);
        k = k + 1;
    }
    proof {
        assert forall|a: int, b: int| 0 <= a < b < out@.len() implies name_lt((#[trigger] out@[a]).path@, (#[trigger] out@[b]).path@) by {
            assert(out@[a].path@ == paths@[a]@);
            assert(out@[b].path@ == paths@[b]@);
        }
        assert forall|q: Seq<char>| (exists|k: int| 0 <= k < out@.len() && (#[trigger] out@[k]).path@ == q) <==> neighbour(files@, rel@, q) by {
            if exists|k: int| 0 <= k < out@.len() && (#[trigger] out@[k]).path@ == q {
                let k = choose|k: int| 0 <= k < out@.len() && (#[trigger] out@[k]).path@ == q;
                assert(paths@[k]@ == q);
            }
            if has(paths@, q) {
                let k = choose|k: int| 0 <= k < paths@.len() && (#[trigger] paths@[k])@ == q;
                assert(out@[k].path@ == q);
            }
        }
    }
    out
}

} // verus!
