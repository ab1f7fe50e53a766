//! Consolidation of daily memory cards into digest nodes: which files changed,
//! what the model is asked, which of its units are kept, where each lands,
//! and the report.
use vstd::prelude::*;
use crate::text::{digits, push_str, push_decimal, seq_join, strings_view, join, chars_of, copy_chars, string_of};
use crate::json::str_eq;
use super::distill::{slugify, slug_of};

verus! {

#[derive(Debug, Default)]
pub struct DreamReport {
    pub scanned: usize,
    pub changed: usize,
    pub integrated: Vec<String>,
    pub failed: Vec<String>,
}

pub open spec fn prefixed_lines(mark: Seq<char>, items: Seq<Seq<char>>) -> Seq<char>
    decreases items.len(),
{
    if items.len() == 0 {
        Seq::empty()
    } else {
        prefixed_lines(mark, items.drop_last()) + "\n"@ + mark + items.last()
    }
}

pub open spec fn report_text(r: DreamReport) -> Seq<char> {
    "scanned: "@ + digits(r.scanned as nat) + "\nchanged: "@ + digits(r.changed as nat) + "\nintegrated: "@
        + digits(r.integrated@.len()) + "\nfailed: "@ + digits(r.failed@.len()) + prefixed_lines(
        "+ "@,
        strings_view(r.integrated@),
    ) + prefixed_lines("! "@, strings_view(r.failed@))
}

fn push_lines(out: &mut String, mark: &str, items: &Vec<String>)
    ensures
        final(out)@ == old(out)@ + prefixed_lines(mark@, strings_view(items@)),
{
    let ghost iv = strings_view(items@);
    let mut i: usize = 0;
    proof {
        assert(iv.take(0) =~= Seq::<Seq<char>>::empty());
    }
    while i < items.len()
        invariant
            i <= items@.len(),
            iv == strings_view(items@),
            out@ == old(out)@ + prefixed_lines(mark@, iv.take(i as int)),
        decreases items@.len() - i,
    {
        push_str(out, "\n");
        push_str(out, mark);
        push_str(out, items[i].as_str());
        proof {
            assert(iv.take(i as int + 1).drop_last() =~= iv.take(i as int));
            assert(iv.take(i as int + 1).last() == items@[i as int]@);
            assert(out@ =~= old(out)@ + prefixed_lines(mark@, iv.take(i as int + 1)));
        }
        i = i + 1;
    }
    proof {
        assert(iv.take(items@.len() as int) =~= iv);
    }
}

impl DreamReport {
    /// Counts, then one `+ path` line per integrated node and one `! name`
    /// line per failed unit.
    pub fn render(&self) -> (r: String)
        ensures
            r@ == report_text(*self),
    {
        let mut out = String::new();
        push_str(&mut out, "scanned: ");
        push_decimal(&mut out, self.scanned as u64);
        push_str(&mut out, "\nchanged: ");
        push_decimal(&mut out, self.changed as u64);
        push_str(&mut out, "\nintegrated: ");
        push_decimal(&mut out, self.integrated.len() as u64);
        push_str(&mut out, "\nfailed: ");
        push_decimal(&mut out, self.failed.len() as u64);
        push_lines(&mut out, "+ ", &self.integrated);
        push_lines(&mut out, "! ", &self.failed);
        proof {
            assert(out@ =~= report_text(*self));
        }
        out
    }
}

/// A daily file with its modification time (Unix seconds).
pub open spec fn checkpoint_of(checkpoints: Seq<(String, i64)>, rel: Seq<char>) -> Option<i64>
    decreases checkpoints.len(),
{
    if checkpoints.len() == 0 {
        None
    } else if checkpoints[0].0@ == rel {
        Some(checkpoints[0].1)
    } else {
        checkpoint_of(checkpoints.drop_first(), rel)
    }
}

/// A file needs consolidation when it has no checkpoint or changed since.
pub open spec fn needs_dream(checkpoints: Seq<(String, i64)>, rel: Seq<char>, mtime: i64) -> bool {
    match checkpoint_of(checkpoints, rel) {
        None => true,
        Some(cp) => mtime > cp,
    }
}

pub open spec fn changed_of(files: Seq<(String, i64)>, checkpoints: Seq<(String, i64)>) -> Seq<(Seq<char>, i64)>
    decreases files.len(),
{
    if files.len() == 0 {
        Seq::empty()
    } else {
        let rest = changed_of(files.drop_last(), checkpoints);
        let (rel, mtime) = files.last();
        if needs_dream(checkpoints, rel@, mtime) { rest.push((rel@, mtime)) } else { rest }
    }
}

pub open spec fn dated_view(v: Seq<(String, i64)>) -> Seq<(Seq<char>, i64)> {
    v.map_values(|x: (String, i64)| (x.0@, x.1))
}

fn checkpoint(checkpoints: &Vec<(String, i64)>, rel: &str) -> (r: Option<i64>)
    ensures
        r == checkpoint_of(checkpoints@, rel@),
{
    let mut i: usize = 0;
    proof {
        assert(checkpoints@.skip(0) =~= checkpoints@);
    }
    while i < checkpoints.len()
        invariant
            i <= checkpoints@.len(),
            checkpoint_of(checkpoints@, rel@) == checkpoint_of(checkpoints@.skip(i as int), rel@),
        decreases checkpoints@.len() - i,
    {
        proof {
            assert(checkpoints@.skip(i as int).drop_first() =~= checkpoints@.skip(i + 1));
            assert(checkpoints@.skip(i as int)[0] == checkpoints@[i as int]);
        }
        if str_eq(checkpoints[i].0.as_str(), rel) {
            return Some(checkpoints[i].1);
        }
        i = i + 1;
    }
    None
}

/// The daily files, in order, that changed since their checkpoint.
pub fn changed_files(files: &Vec<(String, i64)>, checkpoints: &Vec<(String, i64)>) -> (r: Vec<(String, i64)>)
    ensures
        dated_view(r@) == changed_of(files@, checkpoints@),
{
    let mut out: Vec<(String, i64)> = Vec::new();
    let mut i: usize = 0;
    proof {
        assert(files@.take(0) =~= Seq::<(String, i64)>::empty());
    }
    while i < files.len()
        invariant
            i <= files@.len(),
            dated_view(out@) == changed_of(files@.take(i as int), checkpoints@),
        decreases files@.len() - i,
    {
        proof {
            assert(files@.take(i as int + 1).drop_last() =~= files@.take(i as int));
            assert(files@.take(i as int + 1).last() == files@[i as int]);
        }
        let (rel, mtime) = &files[i];
        let keep = match checkpoint(checkpoints, rel.as_str()) {
            None => true,
            Some(cp) => *mtime > cp,
        };
        if keep {
            let ghost prev = out@;
            out.push((rel.clone(), *mtime));
            proof {
                assert(dated_view(out@) =~= dated_view(prev).push((rel@, *mtime)));
            }
        }
        i = i + 1;
    }
    proof {
        assert(files@.take(files@.len() as int) =~= files@);
    }
    out
}

/// Each changed file as a section of the text the model reads.
pub open spec fn corpus_of(parts: Seq<(String, String)>) -> Seq<char>
    decreases parts.len(),
{
    if parts.len() == 0 {
        Seq::empty()
    } else {
        corpus_of(parts.drop_last()) + "--- 文件 "@ + parts.last().0@ + " ---\n"@ + parts.last().1@ + "\n\n"@
    }
}

/// The changed files, each with its text, as one corpus.
pub fn corpus(parts: &Vec<(String, String)>) -> (r: String)
    ensures
        r@ == corpus_of(parts@),
{
    let mut out = String::new();
    let mut i: usize = 0;
    proof {
        assert(parts@.take(0) =~= Seq::<(String, String)>::empty());
    }
    while i < parts.len()
        invariant
            i <= parts@.len(),
            out@ == corpus_of(parts@.take(i as int)),
        decreases parts@.len() - i,
    {
        push_str(&mut out, "--- 文件 ");
        push_str(&mut out, parts[i].0.as_str());
        push_str(&mut out, " ---\n");
        push_str(&mut out, parts[i].1.as_str());
        push_str(&mut out, "\n\n");
        proof {
            assert(parts@.take(i as int + 1).drop_last() =~= parts@.take(i as int));
            assert(parts@.take(i as int + 1).last() == parts@[i as int]);
            assert(out@ =~= corpus_of(parts@.take(i as int + 1)));
        }
        i = i + 1;
    }
    proof {
        assert(parts@.take(parts@.len() as int) =~= parts@);
    }
    out
}

pub open spec fn extract_head() -> Seq<char> {
    "以下是最近的 daily 记忆卡片。请抽取最多 "@
}

pub open spec fn extract_tail() -> Seq<char> {
    " 个值得长期沉淀的记忆单元，输出 JSON 数组，每个元素：\n{\"name\": \"小写短横线 slug\", \"bucket\": \"personal|procedure|wiki\", \"summary\": \"可复用的内容摘要\", \"paths\": [\"来源 daily 路径\"]}\n- personal：用户偏好、个人事实\n- procedure：方法、流程、操作经验\n- wiki：通用知识、概念、决策先例\n优先合并指向同一抽象的跨文件证据，丢弃短暂提及和没有复用价值的内容。只输出 JSON。\n\n"@
}

/// The request to extract at most `max_units` memory units from the corpus.
pub fn extract_prompt(max_units: usize, corpus: &str) -> (r: String)
    ensures
        r@ == extract_head() + digits(max_units as nat) + extract_tail() + corpus@,
{
    let mut out = String::new();
    push_str(&mut out, "以下是最近的 daily 记忆卡片。请抽取最多 ");
    push_decimal(&mut out, max_units as u64);
    push_str(
        &mut out,
        " 个值得长期沉淀的记忆单元，输出 JSON 数组，每个元素：\n{\"name\": \"小写短横线 slug\", \"bucket\": \"personal|procedure|wiki\", \"summary\": \"可复用的内容摘要\", \"paths\": [\"来源 daily 路径\"]}\n- personal：用户偏好、个人事实\n- procedure：方法、流程、操作经验\n- wiki：通用知识、概念、决策先例\n优先合并指向同一抽象的跨文件证据，丢弃短暂提及和没有复用价值的内容。只输出 JSON。\n\n",
    );
    push_str(&mut out, corpus);
    out
}

/// The first index of a character.
pub open spec fn first_index(s: Seq<char>, c: char) -> Option<int>
    decreases s.len(),
{
    if s.len() == 0 {
        None
    } else if s[0] == c {
        Some(0)
    } else {
        match first_index(s.drop_first(), c) {
            Some(i) => Some(i + 1),
            None => None,
        }
    }
}

/// The last index of a character.
pub open spec fn last_index(s: Seq<char>, c: char) -> Option<int>
    decreases s.len(),
{
    if s.len() == 0 {
        None
    } else if s.last() == c {
        Some(s.len() - 1)
    } else {
        last_index(s.drop_last(), c)
    }
}

proof fn lemma_first_index(s: Seq<char>, c: char, i: int)
    requires
        0 <= i <= s.len(),
        forall|j: int| 0 <= j < i ==> s[j] != c,
    ensures
        first_index(s, c) == (match first_index(s.skip(i), c) {
            Some(k) => Some(k + i),
            None => None::<int>,
        }),
    decreases i,
{
    if i > 0 {
        assert(s.drop_first().skip(i - 1) =~= s.skip(i));
        assert forall|j: int| 0 <= j < i - 1 implies s.drop_first()[j] != c by {
            assert(s.drop_first()[j] == s[j + 1]);
        }
        lemma_first_index(s.drop_first(), c, i - 1);
    } else {
        assert(s.skip(0) =~= s);
    }
}

/// Where the model's reply holds a JSON array: from its first `[` to its last
/// `]`, if it has both in that order.
pub open spec fn units_span_of(reply: Seq<char>) -> Option<Seq<char>> {
    match (first_index(reply, '['), last_index(reply, ']')) {
        (Some(a), Some(b)) => Some(reply.subrange(a, b + 1)),
        _ => None,
    }
}

/// The text of the JSON array in a reply. The reply must not hold its first
/// `[` after its last `]`.
pub fn units_span(reply: &str) -> (r: Option<String>)
    requires
        first_index(reply@, '[') matches Some(a) ==> (last_index(reply@, ']') matches Some(b) ==> a <= b + 1),
    ensures
        match r {
            Some(t) => units_span_of(reply@) == Some(t@),
            None => units_span_of(reply@) is None,
        },
{
    let cs = chars_of(reply);
    let mut a: usize = 0;
    while a < cs.len() && cs[a] != '['
        invariant
            a <= cs@.len(),
            cs@ == reply@,
            forall|j: int| 0 <= j < a ==> cs@[j] != '[',
        decreases cs@.len() - a,
    {
        a = a + 1;
    }
    proof {
        lemma_first_index(cs@, '[', a as int);
        if (a as int) < cs@.len() {
            assert(cs@.skip(a as int)[0] == '[');
        } else {
            assert(cs@.skip(a as int).len() == 0);
        }
    }
    if a == cs.len() {
        return None;
    }
    let mut b: usize = cs.len();
    proof {
        assert(cs@.take(cs@.len() as int) =~= cs@);
    }
    while b > 0 && cs[b - 1] != ']'
        invariant
            b <= cs@.len(),
            cs@ == reply@,
            last_index(cs@, ']') == last_index(cs@.take(b as int), ']'),
        decreases b,
    {
        proof {
            assert(cs@.take(b as int).drop_last() =~= cs@.take(b - 1));
        }
        b = b - 1;
    }
    proof {
        assert(cs@.take(cs@.len() as int) =~= cs@);
        if b > 0 {
            assert(cs@.take(b as int).last() == ']');
        }
    }
    if b == 0 {
        return None;
    }
    let t = copy_chars(cs.as_slice(), a, b);
    Some(string_of(t.as_slice()))
}

/// A memory unit the model extracted.
#[derive(Debug, Clone)]
pub struct Unit {
    pub name: String,
    pub bucket: String,
    pub summary: String,
    pub paths: Vec<String>,
}

pub open spec fn named(units: Seq<Unit>) -> Seq<Unit>
    decreases units.len(),
{
    if units.len() == 0 {
        units
    } else {
        let rest = named(units.drop_last());
        if units.last().name@.len() > 0 { rest.push(units.last()) } else { rest }
    }
}

/// The units with a name, at most `max_units` of them, in the model's order.
pub fn select_units(units: Vec<Unit>, max_units: usize) -> (r: Vec<Unit>)
    ensures
        r@ == (if named(units@).len() <= max_units { named(units@) } else { named(units@).take(max_units as int) }),
{
    let ghost all = units@;
    let n = units.len();
    let mut rest = units;
    let mut out: Vec<Unit> = Vec::new();
    let mut i: usize = 0;
    proof {
        assert(all.take(0) =~= Seq::<Unit>::empty());
        assert(all.skip(0) =~= all);
    }
    while rest.len() > 0 && out.len() < max_units
        invariant
            i <= n,
            n == all.len(),
            rest@ == all.skip(i as int),
            out@.len() <= max_units,
            out@ == (if named(all.take(i as int)).len() <= max_units {
                named(all.take(i as int))
            } else {
                named(all.take(i as int)).take(max_units as int)
            }),
            named(all.take(i as int)).len() <= max_units,
        decreases rest@.len(),
    {
        let u = rest.remove(0);
        proof {
            assert(all.skip(i as int).remove(0) =~= all.skip(i + 1));
            assert(all.take(i as int + 1).drop_last() =~= all.take(i as int));
            assert(all.take(i as int + 1).last() == u);
        }
        if !u.name.as_str().is_empty() {
            out.push(u);
        }
        i = i + 1;
    }
    proof {
        if rest@.len() == 0 {
            assert(all.take(i as int) =~= all);
        } else {
            assert(named(all.take(i as int)).len() == max_units);
            lemma_named_prefix(all, i as int);
        }
    }
    out
}

/// The named units of a longer prefix start with those of a shorter one.
proof fn lemma_named_prefix(all: Seq<Unit>, i: int)
    requires
        0 <= i <= all.len(),
    ensures
        named(all).len() >= named(all.take(i)).len(),
        named(all).take(named(all.take(i)).len() as int) == named(all.take(i)),
    decreases all.len() - i,
{
    if i < all.len() {
        lemma_named_prefix(all, i + 1);
        assert(all.take(i + 1).drop_last() =~= all.take(i));
        let a = named(all.take(i));
        let b = named(all.take(i + 1));
        assert(b.take(a.len() as int) =~= a);
        assert(named(all).take(a.len() as int) =~= named(all).take(b.len() as int).take(a.len() as int));
    } else {
        assert(all.take(i) =~= all);
        assert(named(all).take(named(all).len() as int) =~= named(all));
    }
}

pub open spec fn bucket_of(bucket: Seq<char>) -> Seq<char> {
    if bucket == "personal"@ || bucket == "procedure"@ || bucket == "wiki"@ { bucket } else { "wiki"@ }
}

/// The digest node a unit lands in: its bucket (wiki when unknown) and its
/// name as a slug.
pub open spec fn target_of(bucket: Seq<char>, name: Seq<char>) -> Seq<char> {
    "digest/"@ + bucket_of(bucket) + "/"@ + slug_of(name) + ".md"@
}

pub fn digest_target(bucket: &str, name: &str) -> (r: String)
    ensures
        r@ == target_of(bucket@, name@),
{
    let b = if str_eq(bucket, "personal") || str_eq(bucket, "procedure") || str_eq(bucket, "wiki") {
        bucket
    } else {
        "wiki"
    };
    let mut out = String::new();
    push_str(&mut out, "digest/");
    push_str(&mut out, b);
    push_str(&mut out, "/");
    let slug = slugify(name);
    push_str(&mut out, slug.as_str());
    push_str(&mut out, ".md");
    out
}

pub open spec fn integrator_system(target: Seq<char>) -> Seq<char> {
    "你是记忆整合器。把给定的记忆单元整合进长期记忆库 digest/。\n目标文件："@ + target
        + "\n规则：\n1. 先用 memory_search 查找相同或相关的已有 digest 节点。\n2. 决定动作：CREATE（没有相同抽象则新建目标文件）/ CORROBORATE（同一记忆再次出现，向已有节点追加来源或强化表述）/ REFINE（补充边界、步骤、前提、细节）/ CORRECT（修正旧节点的错误或冲突）。\n3. 写入的文件正文保留可复用抽象，## Sources 章节用完整句子以 wikilink 引用来源 daily 路径，并把相关 digest 节点织入正文。\n4. 本单元恰好落到一个 digest 节点。完成后回复 done。"@
}

pub open spec fn integrator_user(u: Unit) -> Seq<char> {
    "记忆单元：\nname: "@ + u.name@ + "\nbucket: "@ + bucket_of(u.bucket@) + "\nsummary: "@ + u.summary@ + "\n来源："@
        + seq_join(strings_view(u.paths@), ", "@)
}

/// The integration of one unit: its target node and the system and user
/// messages that start the model on it.
pub fn integration_request(unit: &Unit) -> (r: (String, String, String))
    ensures
        r.0@ == target_of(unit.bucket@, unit.name@),
        r.1@ == integrator_system(r.0@),
        r.2@ == integrator_user(*unit),
{
    let target = digest_target(unit.bucket.as_str(), unit.name.as_str());
    let mut system = String::new();
    push_str(&mut system, "你是记忆整合器。把给定的记忆单元整合进长期记忆库 digest/。\n目标文件：");
    push_str(&mut system, target.as_str());
    push_str(
        &mut system,
        "\n规则：\n1. 先用 memory_search 查找相同或相关的已有 digest 节点。\n2. 决定动作：CREATE（没有相同抽象则新建目标文件）/ CORROBORATE（同一记忆再次出现，向已有节点追加来源或强化表述）/ REFINE（补充边界、步骤、前提、细节）/ CORRECT（修正旧节点的错误或冲突）。\n3. 写入的文件正文保留可复用抽象，## Sources 章节用完整句子以 wikilink 引用来源 daily 路径，并把相关 digest 节点织入正文。\n4. 本单元恰好落到一个 digest 节点。完成后回复 done。",
    );
    let b = if str_eq(unit.bucket.as_str(), "personal") || str_eq(unit.bucket.as_str(), "procedure") || str_eq(
        unit.bucket.as_str(),
        "wiki",
    ) {
        unit.bucket.as_str()
    } else {
        "wiki"
    };
    let mut user = String::new();
    push_str(&mut user, "记忆单元：\nname: ");
    push_str(&mut user, unit.name.as_str());
    push_str(&mut user, "\nbucket: ");
    push_str(&mut user, b);
    push_str(&mut user, "\nsummary: ");
    push_str(&mut user, unit.summary.as_str());
    push_str(&mut user, "\n来源：");
    let sources = join(&unit.paths, ", ");
    push_str(&mut user, sources.as_str());
    proof {
        assert(user@ =~= integrator_user(*unit));
        assert(system@ =~= integrator_system(target@));
    }
    (target, system, user)
}

} // verus!
