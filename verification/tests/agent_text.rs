use koala::agent::agentmem::AgentMemory;
use koala::agent::plan::TodoList;
use koala::agent::prompt::{append_section, build_system, escape_xml, PromptOptions, PromptResources};
use koala::i18n::{text, Key, Lang};
use koala::memory::distill::{slugify, strip_code_fence};

#[test]
fn strip_fence_variants() {
    assert_eq!(strip_code_fence("```markdown\n# A\n```"), "# A");
    assert_eq!(strip_code_fence("# A"), "# A");
    assert_eq!(strip_code_fence("```\n# A\n```\n"), "# A");
}

#[test]
fn strip_fence_accepts_md_tag() {
    assert_eq!(strip_code_fence("  ```md\n---\nname: x\n---\n```  "), "---\nname: x\n---");
}

#[test]
fn slugify_mixed_scripts() {
    assert_eq!(slugify("Rust 所有权笔记!"), "rust-所有权笔记");
    assert_eq!(slugify("  Hello World  "), "hello-world");
    assert_eq!(slugify("---"), "");
}

#[test]
fn slugify_collapses_separator_runs() {
    assert_eq!(slugify("A__B  C"), "a-b-c");
    assert_eq!(slugify("ÉTÉ"), "t");
}

#[test]
fn sections_are_trimmed_and_blank_ones_skipped() {
    let mut prompt = String::from("base");
    append_section(&mut prompt, "cwd", "  /workspace \n");
    append_section(&mut prompt, "todos", " \n\t");
    assert_eq!(prompt, "base\n\n<cwd>\n/workspace\n</cwd>");
}

#[test]
fn xml_specials_are_escaped() {
    assert_eq!(escape_xml("A & B <c> \"d\""), "A &amp; B &lt;c&gt; &quot;d&quot;");
    assert_eq!(escape_xml("plain"), "plain");
}

#[test]
fn content_truncates_long_memory() {
    assert_eq!(AgentMemory::content(&"x".repeat(5000)).len(), 4000);
    let cjk = "中".repeat(2000);
    let cut = AgentMemory::content(&cjk);
    assert_eq!(cut.len(), 3999);
    assert!(cjk.starts_with(&cut));
    assert_eq!(AgentMemory::content("short"), "short");
}

#[test]
fn remember_groups_by_day_and_content_caps() {
    let once = AgentMemory::remembered("", "2026-01-02", "喜欢简洁回复");
    let twice = AgentMemory::remembered(&once, "2026-01-02", " 用 Rust ");
    assert_eq!(twice, "## 2026-01-02\n\n- 喜欢简洁回复\n- 用 Rust\n");
    let content = AgentMemory::content(&twice);
    assert_eq!(content.matches("## ").count(), 1);
    assert!(content.contains("- 喜欢简洁回复"));
    assert!(content.contains("- 用 Rust"));
}

#[test]
fn remember_starts_a_new_day_and_keeps_later_sections() {
    let text = "## 2026-01-01\n- a\n## 2026-01-03\n- c\n";
    assert_eq!(
        AgentMemory::remembered(text, "2026-01-01", "b"),
        "## 2026-01-01\n- a\n- b\n## 2026-01-03\n- c\n"
    );
    assert_eq!(
        AgentMemory::remembered(text, "2026-01-04", "d"),
        "## 2026-01-01\n- a\n## 2026-01-03\n- c\n\n## 2026-01-04\n\n- d\n"
    );
    assert_eq!(AgentMemory::load("/tmp/m.md").path, "/tmp/m.md");
}

fn skill(name: &str, description: &str, path: &str) -> koala::agent::skills::Skill {
    koala::agent::skills::Skill {
        name: name.into(),
        description: description.into(),
        path: path.into(),
        body: format!("body of {name}"),
    }
}

#[test]
fn skills_are_sorted_by_name_and_the_first_found_wins() {
    let skills = koala::agent::skills::Skills::load_from(vec![
        skill("review", "代码审查", "/a/review/SKILL.md"),
        skill("plain", "", "/a/plain/SKILL.md"),
        skill("review", "shadowed", "/b/review/SKILL.md"),
    ]);
    let names: Vec<&str> = skills.list.iter().map(|s| s.name.as_str()).collect();
    assert_eq!(names, ["plain", "review"]);
    let review = skills.get("review").unwrap();
    assert_eq!(review.description, "代码审查");
    assert!(skills.get("plain").is_some());
    assert!(skills.get("missing").is_none());
    assert_eq!(skills.listing(), "- plain: \n- review: 代码审查");
    assert_eq!(skills.listing().lines().count(), 2);
}

#[test]
fn prompt_listing_escapes_metadata_and_omits_bodies() {
    let skills = koala::agent::skills::Skills::load_from(vec![skill("review", "A & B", "/skills/review/SKILL.md")]);
    let listing = skills.prompt_listing();
    assert_eq!(
        listing,
        "<available_skills>\n<skill>\n<name>review</name>\n<description>A &amp; B</description>\n<location>/skills/review/SKILL.md</location>\n</skill>\n</available_skills>"
    );
    assert!(!listing.contains("body of"));
    let empty = koala::agent::skills::Skills::load_from(vec![]);
    assert!(empty.list.is_empty());
    assert_eq!(empty.prompt_listing(), "<available_skills>\n\n</available_skills>");
}

#[test]
fn custom_prefix_preserves_context_and_skills_are_metadata_only() {
    let skills = koala::agent::skills::Skills {
        list: vec![skill("review", "A & B", "/skills/review/SKILL.md")],
    };
    let mut skills_with_body = skills;
    skills_with_body.list[0].body = "SECRET_SKILL_BODY".into();
    let resources = PromptResources {
        cwd: "/workspace".into(),
        custom: Some("Custom role".into()),
        append: Some("Extra rules".into()),
        project_context: vec![("/workspace/AGENTS.md".into(), "Project rules".into())],
    };
    let rules: Vec<String> = vec![];
    let prompt = build_system(PromptOptions {
        resources: &resources,
        tools: "",
        tool_rules: &rules,
        agent_memory: "Private note",
        skills: &skills_with_body,
        todos: &TodoList::default(),
        plan_mode: true,
        depth: 1,
        lang: Lang::En,
    });
    assert!(prompt.starts_with("Custom role\n"));
    assert!(!prompt.contains("<tools>"));
    assert!(!prompt.contains("<rules>"));
    for text in [
        "<addendum>",
        "Extra rules",
        "Project rules",
        "<agent_memory>",
        "Private note",
        "<skills>",
        "A &amp; B",
        "<location>/skills/review/SKILL.md</location>",
        "<plan_mode>",
        "<subagent>",
        "<cwd>",
    ] {
        assert!(prompt.contains(text), "{text}");
    }
    assert!(!prompt.contains("SECRET_SKILL_BODY"));
}

#[test]
fn default_prompt_lists_tools_and_merges_rules_without_duplicates() {
    let general = text(Lang::En, Key::SystemRules);
    let first_general = general.lines().next().unwrap().to_string();
    let rules = vec!["Use read before edit.".to_string(), first_general.clone()];
    let resources = PromptResources { cwd: "/a&b".into(), ..Default::default() };
    let prompt = build_system(PromptOptions {
        resources: &resources,
        tools: "- read: Read files",
        tool_rules: &rules,
        agent_memory: "  ",
        skills: &koala::agent::skills::Skills::default(),
        todos: &TodoList::default(),
        plan_mode: false,
        depth: 0,
        lang: Lang::En,
    });
    assert!(prompt.starts_with(text(Lang::En, Key::SystemBase)));
    assert!(prompt.contains("<tools>\n- read: Read files\n</tools>"));
    assert!(prompt.contains("- Use read before edit.\n"));
    assert_eq!(prompt.matches(&format!("- {first_general}")).count(), 1);
    assert!(!prompt.contains("<agent_memory>"));
    assert!(!prompt.contains("<todos>"));
    assert!(!prompt.contains("<plan_mode>"));
    assert!(!prompt.contains("<subagent>"));
    assert!(prompt.ends_with("<cwd>\n/a&amp;b\n</cwd>"));
}
