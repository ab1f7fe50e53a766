//! Skills: named instruction files, listed for the user and for the model.
use vstd::prelude::*;
use crate::text::{seq_join, chars_of, push_str, string_of};
use crate::agent::prompt::{escaped, escape_xml};

verus! {

#[derive(Debug, Clone)]
pub struct Skill {
    pub name: String,
    pub description: String,
    pub path: String,
    pub body: String,
}

pub struct SkillV {
    pub name: Seq<char>,
    pub description: Seq<char>,
    pub path: Seq<char>,
    pub body: Seq<char>,
}

impl View for Skill {
    type V = SkillV;

    open spec fn view(&self) -> SkillV {
        SkillV { name: self.name@, description: self.description@, path: self.path@, body: self.body@ }
    }
}

pub open spec fn skills_view(v: Seq<Skill>) -> Seq<SkillV> {
    v.map_values(|s: Skill| s@)
}

#[derive(Debug, Default)]
pub struct Skills {
    pub list: Vec<Skill>,
}

/// Lexicographic order by code point, the order of `str`'s `Ord`.
pub open spec fn name_lt(a: Seq<char>, b: Seq<char>) -> bool
    decreases a.len(),
{
    if a.len() == 0 {
        b.len() > 0
    } else if b.len() == 0 {
        false
    } else if a[0] != b[0] {
        a[0] < b[0]
    } else {
        name_lt(a.drop_first(), b.drop_first())
    }
}

pub proof fn lemma_name_lt_irreflexive(a: Seq<char>)
    ensures
        !name_lt(a, a),
    decreases a.len(),
{
    if a.len() > 0 {
        lemma_name_lt_irreflexive(a.drop_first());
    }
}

pub proof fn lemma_name_lt_total(a: Seq<char>, b: Seq<char>)
    ensures
        a == b || name_lt(a, b) || name_lt(b, a),
        !(name_lt(a, b) && name_lt(b, a)),
    decreases a.len(),
{
    if a.len() > 0 && b.len() > 0 && a[0] == b[0] {
        lemma_name_lt_total(a.drop_first(), b.drop_first());
        if a.drop_first() == b.drop_first() {
            assert(a =~= seq![a[0]] + a.drop_first());
            assert(b =~= seq![b[0]] + b.drop_first());
        }
    } else if a.len() == 0 && b.len() == 0 {
        assert(a =~= b);
    }
}

pub proof fn lemma_name_lt_transitive(a: Seq<char>, b: Seq<char>, c: Seq<char>)
    requires
        name_lt(a, b),
        name_lt(b, c),
    ensures
        name_lt(a, c),
    decreases a.len(),
{
    if a.len() > 0 && b.len() > 0 && c.len() > 0 && a[0] == b[0] && b[0] == c[0] {
        lemma_name_lt_transitive(a.drop_first(), b.drop_first(), c.drop_first());
    }
}

/// Whether `a` comes before `b` by name.
pub(crate) fn name_less(a: &[char], b: &[char]) -> (r: bool)
    ensures
        r == name_lt(a@, b@),
{
    let mut i: usize = 0;
    proof {
        assert(a@.skip(0) =~= a@);
        assert(b@.skip(0) =~= b@);
    }
    while i < a.len() && i < b.len() && a[i] == b[i]
        invariant
            i <= a@.len(),
            i <= b@.len(),
            a@.take(i as int) == b@.take(i as int),
            name_lt(a@, b@) == name_lt(a@.skip(i as int), b@.skip(i as int)),
        decreases a@.len() - i,
    {
        proof {
            assert(a@.skip(i as int).drop_first() =~= a@.skip(i + 1));
            assert(b@.skip(i as int).drop_first() =~= b@.skip(i + 1));
            assert(a@.take(i + 1) =~= a@.take(i as int).push(a@[i as int]));
            assert(b@.take(i + 1) =~= b@.take(i as int).push(b@[i as int]));
        }
        i = i + 1;
    }
    proof {
        if i < a@.len() {
            assert(a@.skip(i as int)[0] == a@[i as int]);
        }
        if i < b@.len() {
            assert(b@.skip(i as int)[0] == b@[i as int]);
        }
    }
    if i == a.len() {
        i < b.len()
    } else if i == b.len() {
        false
    } else {
        a[i] < b[i]
    }
}

/// Number of leading entries whose names come before `name`.
pub open spec fn place(list: Seq<SkillV>, name: Seq<char>) -> nat
    decreases list.len(),
{
    if list.len() == 0 {
        0
    } else if name_lt(list[0].name, name) {
        1 + place(list.drop_first(), name)
    } else {
        0
    }
}

/// A skill joins the list at its place by name, unless its name is listed.
pub open spec fn add_skill(list: Seq<SkillV>, s: SkillV) -> Seq<SkillV> {
    let j = place(list, s.name) as int;
    if j < list.len() && list[j].name == s.name {
        list
    } else {
        list.insert(j, s)
    }
}

/// The skills in the order found, each added in turn.
pub open spec fn collected(found: Seq<SkillV>) -> Seq<SkillV>
    decreases found.len(),
{
    if found.len() == 0 {
        Seq::empty()
    } else {
        add_skill(collected(found.drop_last()), found.last())
    }
}

proof fn lemma_place_bound(list: Seq<SkillV>, name: Seq<char>)
    ensures
        place(list, name) <= list.len(),
    decreases list.len(),
{
    if list.len() > 0 && name_lt(list[0].name, name) {
        lemma_place_bound(list.drop_first(), name);
    }
}

fn clone_skill(s: &Skill) -> (r: Skill)
    ensures
        r@ == s@,
{
    Skill { name: s.name.clone(), description: s.description.clone(), path: s.path.clone(), body: s.body.clone() }
}

impl Skills {
    /// The skills found by scanning the skill roots in order, sorted by name; of
    /// several skills with one name the first found is kept.
    pub fn load_from(found: Vec<Skill>) -> (r: Self)
        ensures
            skills_view(r.list@) == collected(skills_view(found@)),
    {
        let ghost fv = skills_view(found@);
        let mut list: Vec<Skill> = Vec::new();
        let mut i: usize = 0;
        proof {
            assert(fv.take(0) =~= Seq::<SkillV>::empty());
        }
        while i < found.len()
            invariant
                i <= found@.len(),
                fv == skills_view(found@),
                skills_view(list@) == collected(fv.take(i as int)),
            decreases found@.len() - i,
        {
            let s = &found[i];
            let sn = chars_of(s.name.as_str());
            let ghost lv = skills_view(list@);
            let mut j: usize = 0;
            proof {
                assert(lv.skip(0) =~= lv);
            }
            while j < list.len() && name_less(chars_of(list[j].name.as_str()).as_slice(), sn.as_slice())
                invariant
                    j <= list@.len(),
                    lv == skills_view(list@),
                    sn@ == s.name@,
                    place(lv, sn@) == j + place(lv.skip(j as int), sn@),
                decreases list@.len() - j,
            {
                proof {
                    assert(lv.skip(j as int).drop_first() =~= lv.skip(j + 1));
                    assert(lv.skip(j as int)[0] == lv[j as int]);
                }
                j = j + 1;
            }
            proof {
                if j < lv.len() {
                    assert(lv.skip(j as int)[0] == lv[j as int]);
                }
                assert(place(lv, sn@) == j);
                assert(fv.take(i + 1).drop_last() =~= fv.take(i as int));
                assert(fv.take(i + 1).last() == s@);
            }
            let dup = j < list.len() && crate::json::str_eq(list[j].name.as_str(), s.name.as_str());
            if !dup {
                let c = clone_skill(s);
                list.insert(j, c);
                proof {
                    assert(skills_view(list@) =~= lv.insert(j as int, s@));
                }
            }
            i = i + 1;
        }
        proof {
            assert(fv.take(found@.len() as int) =~= fv);
        }
        Skills { list }
    }

    /// The first skill with this name.
    pub fn get(&self, name: &str) -> (r: Option<&Skill>)
        ensures
            match r {
                Some(s) => exists|k: int| 0 <= k < self.list@.len() && self.list@[k] == *s && s.name@ == name@ && forall|m: int| 0 <= m < k ==> (#[trigger] self.list@[m]).name@ != name@,
                None => forall|m: int| 0 <= m < self.list@.len() ==> (#[trigger] self.list@[m]).name@ != name@,
            },
    {
        let mut i: usize = 0;
        while i < self.list.len()
            invariant
                i <= self.list@.len(),
                forall|m: int| 0 <= m < i ==> (#[trigger] self.list@[m]).name@ != name@,
            decreases self.list@.len() - i,
        {
            if crate::json::str_eq(self.list[i].name.as_str(), name) {
                return Some(&self.list[i]);
            }
            i = i + 1;
        }
        None
    }

    /// `- name: description`, one line per skill, for the UI.
    pub fn listing(&self) -> (r: String)
        ensures
            r@ == seq_join(skill_lines(skills_view(self.list@)), "\n"@),
    {
        let ghost lv = skills_view(self.list@);
        let mut out = String::new();
        let mut i: usize = 0;
        proof {
            assert(skill_lines(lv).take(0) =~= Seq::<Seq<char>>::empty());
        }
        while i < self.list.len()
            invariant
                i <= self.list@.len(),
                lv == skills_view(self.list@),
                out@ == seq_join(skill_lines(lv).take(i as int), "\n"@),
            decreases self.list@.len() - i,
        {
            proof {
                assert(skill_lines(lv).take(i + 1).drop_last() =~= skill_lines(lv).take(i as int));
            }
            if i > 0 {
                push_str(&mut out, "\n");
            }
            push_str(&mut out, "- ");
            push_str(&mut out, self.list[i].name.as_str());
            push_str(&mut out, ": ");
            push_str(&mut out, self.list[i].description.as_str());
            i = i + 1;
        }
        proof {
            assert(skill_lines(lv).take(self.list@.len() as int) =~= skill_lines(lv));
        }
        out
    }

    /// The skills as an XML listing for the model: name, description and
    /// location of each, escaped; never the body.
    pub fn prompt_listing(&self) -> (r: String)
        ensures
            r@ == "<available_skills>\n"@ + seq_join(skill_entries(skills_view(self.list@)), "\n"@) + "\n</available_skills>"@,
    {
        let ghost lv = skills_view(self.list@);
        let mut out = "<available_skills>\n".to_owned();
        let mut i: usize = 0;
        proof {
            assert(skill_entries(lv).take(0) =~= Seq::<Seq<char>>::empty());
        }
        while i < self.list.len()
            invariant
                i <= self.list@.len(),
                lv == skills_view(self.list@),
                out@ == "<available_skills>\n"@ + seq_join(skill_entries(lv).take(i as int), "\n"@),
            decreases self.list@.len() - i,
        {
            proof {
                assert(skill_entries(lv).take(i + 1).drop_last() =~= skill_entries(lv).take(i as int));
            }
            if i > 0 {
                push_str(&mut out, "\n");
            }
            let s = &self.list[i];
            push_str(&mut out, "<skill>\n<name>");
            push_str(&mut out, escape_xml(s.name.as_str()).as_str());
            push_str(&mut out, "</name>\n<description>");
            push_str(&mut out, escape_xml(s.description.as_str()).as_str());
            push_str(&mut out, "</description>\n<location>");
            push_str(&mut out, escape_xml(s.path.as_str()).as_str());
            push_str(&mut out, "</location>\n</skill>");
            i = i + 1;
        }
        proof {
            assert(skill_entries(lv).take(self.list@.len() as int) =~= skill_entries(lv));
        }
        push_str(&mut out, "\n</available_skills>");
        out
    }
}

pub open spec fn skill_lines(v: Seq<SkillV>) -> Seq<Seq<char>> {
    v.map_values(|s: SkillV| "- "@ + s.name + ": "@ + s.description)
}

pub open spec fn skill_entries(v: Seq<SkillV>) -> Seq<Seq<char>> {
    v.map_values(
        |s: SkillV|
            "<skill>\n<name>"@ + escaped(s.name) + "</name>\n<description>"@ + escaped(s.description)
                + "</description>\n<location>"@ + escaped(s.path) + "</location>\n</skill>"@,
    )
}

} // verus!
