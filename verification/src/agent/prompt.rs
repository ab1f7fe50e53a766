//! Pieces of the system prompt: tagged sections and XML escaping.
use vstd::prelude::*;
use crate::text::{trim, chars_of, trimmed, string_of, push_str, push_char, str_lines, seq_join, lines_of, chars_eq};
use crate::i18n::{self, Key, Lang, key_text, fill_all};
use super::plan::{TodoList, todo_lines};
use super::skills::{Skills, skills_view, skill_entries};

verus! {

/// `\n\n<name>\ntrimmed content\n</name>`, or nothing for blank content.
pub open spec fn section(name: Seq<char>, content: Seq<char>) -> Seq<char> {
    if trim(content).len() == 0 {
        Seq::empty()
    } else {
        "\n\n<"@ + name + ">\n"@ + trim(content) + "\n</"@ + name + ">"@
    }
}

/// Appends a tagged section for non-blank content.
pub fn append_section(prompt: &mut String, name: &str, content: &str)
    ensures
        final(prompt)@ == old(prompt)@ + section(name@, content@),
{
    let t = trimmed(chars_of(content).as_slice());
    if t.len() > 0 {
        let body = string_of(t.as_slice());
        push_str(prompt, "\n\n<");
        push_str(prompt, name);
        push_str(prompt, ">\n");
        push_str(prompt, body.as_str());
        push_str(prompt, "\n</");
        push_str(prompt, name);
        push_str(prompt, ">");
    } else {
        proof {
            assert(old(prompt)@ + section(name@, content@) =~= old(prompt)@);
        }
    }
}

pub open spec fn escape_char(c: char) -> Seq<char> {
    if c == '&' {
        "&amp;"@
    } else if c == '<' {
        "&lt;"@
    } else if c == '>' {
        "&gt;"@
    } else if c == '"' {
        "&quot;"@
    } else {
        seq![c]
    }
}

/// `&`, `<`, `>` and `"` as XML entities.
pub open spec fn escaped(s: Seq<char>) -> Seq<char>
    decreases s.len(),
{
    if s.len() == 0 {
        Seq::empty()
    } else {
        escaped(s.drop_last()) + escape_char(s.last())
    }
}

pub fn escape_xml(text: &str) -> (r: String)
    ensures
        r@ == escaped(text@),
{
    let cs = chars_of(text);
    let mut out = String::new();
    let mut i: usize = 0;
    proof {
        assert(cs@.take(0) =~= Seq::<char>::empty());
    }
    while i < cs.len()
        invariant
            i <= cs@.len(),
            cs@ == text@,
            out@ == escaped(cs@.take(i as int)),
        decreases cs@.len() - i,
    {
        let c = cs[i];
        proof {
            assert(cs@.take(i as int + 1).drop_last() =~= cs@.take(i as int));
        }
        if c == '&' {
            push_str(&mut out, "&amp;");
        } else if c == '<' {
            push_str(&mut out, "&lt;");
        } else if c == '>' {
            push_str(&mut out, "&gt;");
        } else if c == '"' {
            push_str(&mut out, "&quot;");
        } else {
            push_char(&mut out, c);
            proof {
                assert(seq![c] =~= Seq::<char>::empty().push(c));
            }
        }
        i = i + 1;
    }
    proof {
        assert(cs@.take(cs@.len() as int) =~= cs@);
    }
    out
}

/// File-backed instructions, loaded once per agent run: the working directory,
/// a custom prompt prefix, an addendum and the project instruction files.
#[derive(Debug, Default)]
pub struct PromptResources {
    pub cwd: String,
    pub custom: Option<String>,
    pub append: Option<String>,
    pub project_context: Vec<(String, String)>,
}

/// What the system prompt is built from. `tools` and `tool_rules` are the tool
/// catalog's sections for the current mode and language.
pub struct PromptOptions<'a> {
    pub resources: &'a PromptResources,
    pub tools: &'a str,
    pub tool_rules: &'a Vec<String>,
    pub agent_memory: &'a str,
    pub skills: &'a Skills,
    pub todos: &'a TodoList,
    pub plan_mode: bool,
    pub depth: usize,
    pub lang: Lang,
}

/// The catalog's rules followed by each general rule line not yet listed.
pub open spec fn merged_rules(rules: Seq<Seq<char>>, lines: Seq<Seq<char>>) -> Seq<Seq<char>>
    decreases lines.len(),
{
    if lines.len() == 0 {
        rules
    } else {
        let r = merged_rules(rules, lines.drop_last());
        if r.contains(lines.last()) {
            r
        } else {
            r.push(lines.last())
        }
    }
}

pub open spec fn bullets(rules: Seq<Seq<char>>) -> Seq<char> {
    seq_join(rules.map_values(|r: Seq<char>| "- "@ + r), "\n"@)
}

pub open spec fn context_block(ctx: Seq<(Seq<char>, Seq<char>)>) -> Seq<char> {
    seq_join(
        ctx.map_values(
            |e: (Seq<char>, Seq<char>)|
                "<project_instructions path=\""@ + escaped(e.0) + "\">\n"@ + e.1 + "\n</project_instructions>"@,
        ),
        "\n\n"@,
    )
}

pub open spec fn custom_prefix(custom: Option<String>) -> Option<Seq<char>> {
    match custom {
        Some(c) => if trim(c@).len() > 0 { Some(c@) } else { None },
        None => None,
    }
}

pub open spec fn strs_view(v: Seq<String>) -> Seq<Seq<char>> {
    v.map_values(|s: String| s@)
}

pub open spec fn pairs_view(v: Seq<(String, String)>) -> Seq<(Seq<char>, Seq<char>)> {
    v.map_values(|e: (String, String)| (e.0@, e.1@))
}

/// The system prompt. A non-blank custom prefix replaces the default
/// instructions and the tool and rule sections; the addendum, project
/// instructions, skills, memory, todos, sub-agent and plan-mode notes and the
/// working directory follow in that order, each only when it has content.
pub open spec fn system_prompt(
    res: PromptResources,
    tools: Seq<char>,
    tool_rules: Seq<Seq<char>>,
    memory: Seq<char>,
    skills: Skills,
    todos: TodoList,
    plan_mode: bool,
    depth: usize,
    lang: Lang,
) -> Seq<char> {
    let head = match custom_prefix(res.custom) {
        Some(c) => c,
        None => key_text(lang, Key::SystemBase) + section("tools"@, tools) + section(
            "rules"@,
            bullets(merged_rules(tool_rules, str_lines(key_text(lang, Key::SystemRules)))),
        ),
    };
    head + match res.append {
        Some(a) => section("addendum"@, a@),
        None => Seq::empty(),
    } + section("project_context"@, context_block(pairs_view(res.project_context@))) + (if skills.list@.len() > 0 {
        section(
            "skills"@,
            fill_all(
                key_text(lang, Key::SkillsSection),
                seq![("listing"@, "<available_skills>\n"@ + seq_join(skill_entries(skills_view(skills.list@)), "\n"@) + "\n</available_skills>"@)],
            ),
        )
    } else {
        Seq::empty()
    }) + section("agent_memory"@, memory) + (if todos.items@.len() > 0 {
        section("todos"@, seq_join(todo_lines(todos.items@), "\n"@))
    } else {
        Seq::empty()
    }) + (if depth > 0 {
        section("subagent"@, key_text(lang, Key::SubagentSystem))
    } else {
        Seq::empty()
    }) + (if plan_mode {
        section("plan_mode"@, key_text(lang, Key::SystemPlan))
    } else {
        Seq::empty()
    }) + section("cwd"@, escaped(res.cwd@))
}

fn merge_rules(tool_rules: &Vec<String>, general: &str) -> (r: Vec<String>)
    ensures
        strs_view(r@) == merged_rules(strs_view(tool_rules@), str_lines(general@)),
{
    let mut rules: Vec<String> = Vec::new();
    let mut i: usize = 0;
    while i < tool_rules.len()
        invariant
            i <= tool_rules@.len(),
            strs_view(rules@) == strs_view(tool_rules@.take(i as int)),
        decreases tool_rules@.len() - i,
    {
        let c = tool_rules[i].clone();
        let ghost prev = rules@;
        rules.push(c);
        proof {
            assert(tool_rules@.take(i as int + 1) =~= tool_rules@.take(i as int).push(tool_rules@[i as int]));
            assert(strs_view(rules@) =~= strs_view(prev).push(c@));
            assert(strs_view(tool_rules@.take(i as int + 1)) =~= strs_view(tool_rules@.take(i as int)).push(c@));
        }
        i = i + 1;
    }
    proof {
        assert(tool_rules@.take(tool_rules@.len() as int) =~= tool_rules@);
    }
    let lines = lines_of(chars_of(general).as_slice());
    let ghost lv = lines@.map_values(|l: Vec<char>| l@);
    let mut j: usize = 0;
    proof {
        assert(lv.take(0) =~= Seq::<Seq<char>>::empty());
    }
    while j < lines.len()
        invariant
            j <= lines@.len(),
            lv == lines@.map_values(|l: Vec<char>| l@),
            lv == str_lines(general@),
            strs_view(rules@) == merged_rules(strs_view(tool_rules@), lv.take(j as int)),
        decreases lines@.len() - j,
    {
        proof {
            assert(lv.take(j as int + 1).drop_last() =~= lv.take(j as int));
            assert(lv.take(j as int + 1).last() == lines@[j as int]@);
        }
        let line = string_of(lines[j].as_slice());
        let ghost rv = strs_view(rules@);
        let mut k: usize = 0;
        let mut found = false;
        while k < rules.len()
            invariant
                k <= rules@.len(),
                rv == strs_view(rules@),
                found == exists|m: int| 0 <= m < k && rv[m] == line@,
            decreases rules@.len() - k,
        {
            if rules[k] == line {
                found = true;
                proof {
                    assert(rv[k as int] == line@);
                }
            }
            k = k + 1;
        }
        if !found {
            let ghost prev = rules@;
            rules.push(line);
            proof {
                assert(strs_view(rules@) =~= strs_view(prev).push(line@));
            }
        }
        j = j + 1;
    }
    proof {
        assert(lv.take(lines@.len() as int) =~= lv);
    }
    rules
}

fn bullet_text(rules: &Vec<String>) -> (r: String)
    ensures
        r@ == bullets(strs_view(rules@)),
{
    let ghost bv = strs_view(rules@).map_values(|r: Seq<char>| "- "@ + r);
    let mut out = String::new();
    let mut i: usize = 0;
    proof {
        assert(bv.take(0) =~= Seq::<Seq<char>>::empty());
    }
    while i < rules.len()
        invariant
            i <= rules@.len(),
            bv == strs_view(rules@).map_values(|r: Seq<char>| "- "@ + r),
            out@ == seq_join(bv.take(i as int), "\n"@),
        decreases rules@.len() - i,
    {
        proof {
            assert(bv.take(i as int + 1).drop_last() =~= bv.take(i as int));
        }
        if i > 0 {
            push_str(&mut out, "\n");
        }
        push_str(&mut out, "- ");
        push_str(&mut out, rules[i].as_str());
        i = i + 1;
    }
    proof {
        assert(bv.take(rules@.len() as int) =~= bv);
    }
    out
}

fn context_text(ctx: &Vec<(String, String)>) -> (r: String)
    ensures
        r@ == context_block(pairs_view(ctx@)),
{
    let ghost items = pairs_view(ctx@).map_values(
        |e: (Seq<char>, Seq<char>)| "<project_instructions path=\""@ + escaped(e.0) + "\">\n"@ + e.1 + "\n</project_instructions>"@,
    );
    let mut out = String::new();
    let mut i: usize = 0;
    proof {
        assert(items.take(0) =~= Seq::<Seq<char>>::empty());
    }
    while i < ctx.len()
        invariant
            i <= ctx@.len(),
            items == pairs_view(ctx@).map_values(
                |e: (Seq<char>, Seq<char>)| "<project_instructions path=\""@ + escaped(e.0) + "\">\n"@ + e.1 + "\n</project_instructions>"@,
            ),
            out@ == seq_join(items.take(i as int), "\n\n"@),
        decreases ctx@.len() - i,
    {
        proof {
            assert(items.take(i as int + 1).drop_last() =~= items.take(i as int));
        }
        if i > 0 {
            push_str(&mut out, "\n\n");
        }
        push_str(&mut out, "<project_instructions path=\"");
        push_str(&mut out, escape_xml(ctx[i].0.as_str()).as_str());
        push_str(&mut out, "\">\n");
        push_str(&mut out, ctx[i].1.as_str());
        push_str(&mut out, "\n</project_instructions>");
        i = i + 1;
    }
    proof {
        assert(items.take(ctx@.len() as int) =~= items);
    }
    out
}

/// Default instructions describe only available tools. Custom instructions
/// replace that prefix, while project instructions, live state and mode
/// constraints remain.
#[verifier::rlimit(40)]
pub fn build_system(options: PromptOptions<'_>) -> (r: String)
    ensures
        r@ == system_prompt(
            *options.resources,
            options.tools@,
            strs_view(options.tool_rules@),
            options.agent_memory@,
            *options.skills,
            *options.todos,
            options.plan_mode,
            options.depth,
            options.lang,
        ),
{
    let resources = options.resources;
    let lang = options.lang;
    let custom_ok = match &resources.custom {
        Some(c) => trimmed(chars_of(c.as_str()).as_slice()).len() > 0,
        None => false,
    };
    let mut prompt = if custom_ok {
        match &resources.custom {
            Some(c) => c.clone(),
            None => String::new(),
        }
    } else {
        i18n::text(lang, Key::SystemBase).to_owned()
    };
    if !custom_ok {
        append_section(&mut prompt, "tools", options.tools);
        let rules = merge_rules(options.tool_rules, i18n::text(lang, Key::SystemRules));
        let list = bullet_text(&rules);
        append_section(&mut prompt, "rules", list.as_str());
    }
    let ghost p1 = prompt@;
    match &resources.append {
        Some(a) => append_section(&mut prompt, "addendum", a.as_str()),
        None => {},
    }
    let ghost p2 = prompt@;
    let context = context_text(&resources.project_context);
    append_section(&mut prompt, "project_context", context.as_str());
    let ghost p3 = prompt@;
    if options.skills.list.len() > 0 {
        let listing = options.skills.prompt_listing();
        let ls = listing.as_str();
        let args = [("listing", ls)];
        let filled = i18n::fill(lang, Key::SkillsSection, &args);
        proof {
            assert(i18n::args_view(args@) =~= seq![("listing"@, listing@)]);
        }
        append_section(&mut prompt, "skills", filled.as_str());
    }
    let ghost p4 = prompt@;
    append_section(&mut prompt, "agent_memory", options.agent_memory);
    let ghost p5 = prompt@;
    if !options.todos.is_empty() {
        let rendered = options.todos.render_prompt();
        append_section(&mut prompt, "todos", rendered.as_str());
    }
    let ghost p6 = prompt@;
    if options.depth > 0 {
        append_section(&mut prompt, "subagent", i18n::text(lang, Key::SubagentSystem));
    }
    let ghost p7 = prompt@;
    if options.plan_mode {
        append_section(&mut prompt, "plan_mode", i18n::text(lang, Key::SystemPlan));
    }
    let ghost p8 = prompt@;
    let cwd = escape_xml(resources.cwd.as_str());
    append_section(&mut prompt, "cwd", cwd.as_str());
    proof {
        assert(p2 == p1 + match resources.append {
            Some(a) => section("addendum"@, a@),
            None => Seq::<char>::empty(),
        }) by {
            if resources.append is None {
                assert(p2 =~= p1 + Seq::<char>::empty());
            }
        }
        if options.skills.list@.len() == 0 {
            assert(p4 =~= p3 + Seq::<char>::empty());
        }
        if options.todos.items@.len() == 0 {
            assert(p6 =~= p5 + Seq::<char>::empty());
        }
        if options.depth == 0 {
            assert(p7 =~= p6 + Seq::<char>::empty());
        }
        if !options.plan_mode {
            assert(p8 =~= p7 + Seq::<char>::empty());
        }
    }
    prompt
}

/// Plan mode and sub-agent depth change the system prompt only by their own
/// sections: the prompt is the one built outside plan mode at depth 0 without its
/// closing working-directory section, then the sub-agent section when the depth
/// is above 0, the plan-mode section when plan mode is on, and the
/// working-directory section.
pub proof fn law_mode_sections(
    res: PromptResources,
    tools: Seq<char>,
    tool_rules: Seq<Seq<char>>,
    memory: Seq<char>,
    skills: Skills,
    todos: TodoList,
    plan_mode: bool,
    depth: usize,
    lang: Lang,
)
    ensures
        ({
            let plain = system_prompt(res, tools, tool_rules, memory, skills, todos, false, 0, lang);
            let cwd = section("cwd"@, escaped(res.cwd@));
            &&& cwd.len() <= plain.len()
            &&& plain.skip(plain.len() - cwd.len()) == cwd
            &&& system_prompt(res, tools, tool_rules, memory, skills, todos, plan_mode, depth, lang) == plain.take(
                plain.len() - cwd.len(),
            ) + (if depth > 0 {
                section("subagent"@, key_text(lang, Key::SubagentSystem))
            } else {
                Seq::empty()
            }) + (if plan_mode {
                section("plan_mode"@, key_text(lang, Key::SystemPlan))
            } else {
                Seq::empty()
            }) + cwd
        }),
{
    let plain = system_prompt(res, tools, tool_rules, memory, skills, todos, false, 0, lang);
    let cwd = section("cwd"@, escaped(res.cwd@));
    let sub = if depth > 0 { section("subagent"@, key_text(lang, Key::SubagentSystem)) } else { Seq::empty() };
    let plan = if plan_mode { section("plan_mode"@, key_text(lang, Key::SystemPlan)) } else { Seq::empty() };
    let full = system_prompt(res, tools, tool_rules, memory, skills, todos, plan_mode, depth, lang);
    let base = full.take(full.len() - cwd.len() - plan.len() - sub.len());
    assert(full =~= base + sub + plan + cwd);
    assert(plain =~= base + Seq::<char>::empty() + Seq::<char>::empty() + cwd);
    assert(plain.take(plain.len() - cwd.len()) =~= base);
    assert(plain.skip(plain.len() - cwd.len()) =~= cwd);
}

} // verus!
