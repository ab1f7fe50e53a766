//! The tool sections of the system prompt: one line per offered tool, and the
//! tools' guideline lines without repeats.
use vstd::prelude::*;
use crate::text::{chars_of, lines_of, trimmed, trim, str_lines, string_of, push_str, join, seq_join, strings_view};

verus! {

/// What the prompt says of one tool: its name, one-line snippet, guideline lines
/// and whether plan mode offers it.
#[derive(Debug)]
pub struct ToolPrompt {
    pub name: String,
    pub snippet: String,
    pub guidelines: String,
    pub plan_allowed: bool,
}

/// The tools that a mode offers, in order.
pub open spec fn offered(tools: Seq<ToolPrompt>, plan_mode: bool) -> Seq<ToolPrompt>
    decreases tools.len(),
{
    if tools.len() == 0 {
        Seq::empty()
    } else {
        let rest = offered(tools.drop_last(), plan_mode);
        if plan_mode && !tools.last().plan_allowed { rest } else { rest.push(tools.last()) }
    }
}

/// The line of one tool.
pub open spec fn tool_line(t: ToolPrompt) -> Seq<char> {
    "- "@ + t.name@ + ": "@ + t.snippet@
}

pub open spec fn tool_lines(tools: Seq<ToolPrompt>) -> Seq<Seq<char>> {
    tools.map_values(|t: ToolPrompt| tool_line(t))
}

/// Adds guideline lines, trimmed, skipping empty ones and ones already listed.
pub open spec fn add_rules(rules: Seq<Seq<char>>, lines: Seq<Seq<char>>) -> Seq<Seq<char>>
    decreases lines.len(),
{
    if lines.len() == 0 {
        rules
    } else {
        let r = add_rules(rules, lines.drop_last());
        let t = trim(lines.last());
        if t.len() == 0 || r.contains(t) { r } else { r.push(t) }
    }
}

/// The rules of the offered tools, in order.
pub open spec fn tool_rules(tools: Seq<ToolPrompt>) -> Seq<Seq<char>>
    decreases tools.len(),
{
    if tools.len() == 0 {
        Seq::empty()
    } else {
        add_rules(tool_rules(tools.drop_last()), str_lines(tools.last().guidelines@))
    }
}

/// Adds the guideline lines of one tool.
fn add_guidelines(rules: &mut Vec<String>, guidelines: &str)
    ensures
        strings_view(final(rules)@) == add_rules(strings_view(old(rules)@), str_lines(guidelines@)),
{
    let lines = lines_of(chars_of(guidelines).as_slice());
    let ghost lv = lines@.map_values(|l: Vec<char>| l@);
    let ghost start = strings_view(rules@);
    let mut j: usize = 0;
    proof {
        assert(lv.take(0) =~= Seq::<Seq<char>>::empty());
    }
    while j < lines.len()
        invariant
            j <= lines@.len(),
            lv == lines@.map_values(|l: Vec<char>| l@),
            lv == str_lines(guidelines@),
            strings_view(rules@) == add_rules(start, lv.take(j as int)),
        decreases lines@.len() - j,
    {
        proof {
            assert(lv.take(j as int + 1).drop_last() =~= lv.take(j as int));
            assert(lv.take(j as int + 1).last() == lines@[j as int]@);
        }
        let t = trimmed(lines[j].as_slice());
        let line = string_of(t.as_slice());
        let ghost rv = strings_view(rules@);
        let mut k: usize = 0;
        let mut found = false;
        while k < rules.len()
            invariant
                k <= rules@.len(),
                rv == strings_view(rules@),
                found == exists|m: int| 0 <= m < k && rv[m] == line@,
            decreases rules@.len() - k,
        {
            if rules[k] == line {
                found = true;
                proof {
                    assert(rv[k as int] == line@);
                }
            }
            k = k + 1;
        }
        if t.len() > 0 && !found {
            let ghost prev = rules@;
            rules.push(line);
            proof {
                assert(strings_view(rules@) =~= strings_view(prev).push(line@));
            }
        }
        j = j + 1;
    }
    proof {
        assert(lv.take(lines@.len() as int) =~= lv);
    }
}

/// The tools section and the tool rules of the system prompt, for the tools that
/// the mode offers.
pub fn prompt_sections(tools: &Vec<ToolPrompt>, plan_mode: bool) -> (r: (String, Vec<String>))
    ensures
        r.0@ == seq_join(tool_lines(offered(tools@, plan_mode)), "\n"@),
        strings_view(r.1@) == tool_rules(offered(tools@, plan_mode)),
{
    let mut lines: Vec<String> = Vec::new();
    let mut rules: Vec<String> = Vec::new();
    let mut i: usize = 0;
    proof {
        assert(tools@.take(0) =~= Seq::<ToolPrompt>::empty());
        assert(strings_view(lines@) =~= Seq::<Seq<char>>::empty());
        assert(tool_lines(offered(tools@.take(0), plan_mode)) =~= Seq::<Seq<char>>::empty());
    }
    while i < tools.len()
        invariant
            i <= tools@.len(),
            strings_view(lines@) == tool_lines(offered(tools@.take(i as int), plan_mode)),
            strings_view(rules@) == tool_rules(offered(tools@.take(i as int), plan_mode)),
        decreases tools@.len() - i,
    {
        let t = &tools[i];
        let ghost before = offered(tools@.take(i as int), plan_mode);
        proof {
            assert(tools@.take(i as int + 1).drop_last() =~= tools@.take(i as int));
            assert(tools@.take(i as int + 1).last() == tools@[i as int]);
        }
        if !(plan_mode && !t.plan_allowed) {
            let mut line = "- ".to_owned();
            push_str(&mut line, t.name.as_str());
            push_str(&mut line, ": ");
            push_str(&mut line, t.snippet.as_str());
            let ghost prev = lines@;
            lines.push(line);
            add_guidelines(&mut rules, t.guidelines.as_str());
            proof {
                let after = before.push(tools@[i as int]);
                assert(offered(tools@.take(i as int + 1), plan_mode) == after);
                assert(strings_view(lines@) =~= strings_view(prev).push(line@));
                assert(tool_lines(after) =~= tool_lines(before).push(tool_line(tools@[i as int])));
                assert(after.drop_last() =~= before);
            }
        }
        i = i + 1;
    }
    proof {
        assert(tools@.take(i as int) =~= tools@);
    }
    (join(&lines, "\n"), rules)
}

/// The tools section lists exactly the tools of the mode: outside plan mode every
/// tool in its order, in plan mode the tools that plan mode allows and no other.
pub proof fn law_offered_by_mode(tools: Seq<ToolPrompt>, plan_mode: bool)
    ensures
        !plan_mode ==> offered(tools, plan_mode) == tools,
        forall|t: ToolPrompt| #[trigger] offered(tools, plan_mode).contains(t) <==> tools.contains(t) && (!plan_mode || t.plan_allowed),
    decreases tools.len(),
{
    if tools.len() > 0 {
        let init = tools.drop_last();
        let x = tools.last();
        law_offered_by_mode(init, plan_mode);
        let rest = offered(init, plan_mode);
        assert(init.push(x) =~= tools);
        assert forall|t: ToolPrompt| #[trigger] offered(tools, plan_mode).contains(t) <==> tools.contains(t) && (!plan_mode || t.plan_allowed) by {
            if tools.contains(t) {
                let i = choose|i: int| 0 <= i < tools.len() && tools[i] == t;
                if i < tools.len() - 1 {
                    assert(init[i] == t);
                }
            }
            if init.contains(t) {
                let i = choose|i: int| 0 <= i < init.len() && init[i] == t;
                assert(tools[i] == t);
            }
            assert(tools[tools.len() - 1] == x);
            if !(plan_mode && !x.plan_allowed) {
                let r = rest.push(x);
                if rest.contains(t) {
                    let i = choose|i: int| 0 <= i < rest.len() && rest[i] == t;
                    assert(r[i] == t);
                }
                if r.contains(t) {
                    let i = choose|i: int| 0 <= i < r.len() && r[i] == t;
                    if i < rest.len() {
                        assert(rest[i] == t);
                    }
                }
                assert(r[rest.len() as int] == x);
            }
        }
    }
}

} // verus!
