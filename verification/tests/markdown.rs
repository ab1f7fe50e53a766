use koala::markdown::{extract_wikilinks, parse, render};

fn yaml(text: &str) -> serde_yml::Value {
    serde_yml::from_str::<serde_yml::Value>(text).unwrap()
}

#[test]
fn parses_frontmatter_with_extra_fields() {
    let text = "---\nname: rust-notes\ndescription: Rust 学习笔记\ntags: [rust, systems]\ncount: 3\n---\n\nbody line\n";
    let parsed = parse(text);
    let fm = yaml(parsed.frontmatter.as_deref().unwrap());
    assert_eq!(fm.get("name").and_then(|v| v.as_str()), Some("rust-notes"));
    assert_eq!(fm.get("description").and_then(|v| v.as_str()), Some("Rust 学习笔记"));
    assert_eq!(fm.get("tags").unwrap().as_sequence().unwrap().len(), 2);
    assert_eq!(fm.get("count").unwrap().as_i64(), Some(3));
    assert_eq!(parsed.body, "body line");
    assert_eq!(parsed.body_start_line, 8);
}

#[test]
fn text_without_frontmatter_is_plain_body() {
    let parsed = parse("# Title\n\nno frontmatter\n");
    assert!(parsed.frontmatter.is_none());
    assert_eq!(parsed.body_start_line, 1);
}

#[test]
fn unclosed_frontmatter_is_plain_body() {
    let parsed = parse("---\nname: x\nno closing fence\n");
    assert!(parsed.frontmatter.is_none());
}

#[test]
fn frontmatter_roundtrip_preserves_extra_fields() {
    let original = "---\nname: card\ndescription: a card\ntags:\n  - rust\npinned: true\n---\n\nhello body\n";
    let parsed = parse(original);
    let fm = parsed.frontmatter.clone().unwrap();
    let rendered = render(&fm, &parsed.body);
    let reparsed = parse(&rendered);
    let fm2 = reparsed.frontmatter.clone().unwrap();
    assert_eq!(yaml(&fm), yaml(&fm2));
    assert_eq!(reparsed.body, parsed.body);
}

#[test]
fn body_without_blank_line_starts_right_after_the_fence() {
    let parsed = parse("---\na: 1\n---\nbody\n");
    assert_eq!(parsed.frontmatter.as_deref(), Some("a: 1"));
    assert_eq!(parsed.body, "body");
    assert_eq!(parsed.body_start_line, 4);
    let empty = parse("");
    assert!(empty.frontmatter.is_none());
    assert_eq!(empty.body, "");
}

#[test]
fn render_strips_a_document_marker_and_trailing_newlines() {
    assert_eq!(render("---\na: 1\n\n", "b"), "---\na: 1\n---\n\nb");
    assert_eq!(render("a: 1", ""), "---\na: 1\n---\n\n");
}

#[test]
fn extracts_all_wikilink_forms() {
    let text = "see [[daily/2026-09-17/rust.md]] and [[digest/wiki/borrow.md|借用检查]] plus [[digest/wiki/iter.md#L9]] and [[digest/wiki/iter.md#L9-L10]]";
    let links = extract_wikilinks(text);
    assert_eq!(links.len(), 4);
    assert_eq!(links[0].target, "daily/2026-09-17/rust.md");
    assert_eq!(links[0].label, None);
    assert_eq!(links[1].target, "digest/wiki/borrow.md");
    assert_eq!(links[1].label.as_deref(), Some("借用检查"));
    assert_eq!(links[2].target, "digest/wiki/iter.md");
    assert_eq!(links[2].line, Some(9));
    assert_eq!(links[2].end_line, None);
    assert_eq!(links[3].target, "digest/wiki/iter.md");
    assert_eq!(links[3].line, Some(9));
    assert_eq!(links[3].end_line, Some(10));
}

#[test]
fn skips_malformed_wikilinks() {
    assert!(extract_wikilinks("[[unclosed and [[]] empty").is_empty());
    assert!(extract_wikilinks("[[]]").is_empty());
    assert!(extract_wikilinks("[[multi\nline]]").is_empty());
}

#[test]
fn no_links_in_plain_text() {
    assert!(extract_wikilinks("just [single] brackets").is_empty());
}

#[test]
fn line_specs_need_an_l_and_digits() {
    let links = extract_wikilinks("[[ a.md #L+7-x ]] [[b.md#9]] [[c.md#L99999999999999999999999]]");
    assert_eq!(links.len(), 3);
    assert_eq!(links[0].target, "a.md");
    assert_eq!(links[0].line, Some(7));
    assert_eq!(links[0].end_line, None);
    assert_eq!(links[1].line, None);
    assert_eq!(links[2].line, None);
}
