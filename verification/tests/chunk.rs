use koala::memory::chunk::{chunk_markdown, Chunk, DEFAULT_MAX_CHUNK_LINES};

fn chunks(text: &str, max: usize) -> Vec<Chunk> {
    chunk_markdown("test.md", text, max, None, None, true).unwrap()
}

#[test]
fn splits_by_heading_structure_with_line_numbers() {
    let text = "# A\nline1\nline2\n## B\nline3\n### C\nline4\n# D\nline5\n";
    let out = chunks(text, 80);
    // `# A`'s section runs to the next same-or-higher heading, so B/C are inside it.
    assert_eq!(out.len(), 2);
    assert_eq!((out[0].start_line, out[0].end_line), (1, 7));
    assert_eq!(out[0].breadcrumb, "# A");
    assert!(out[0].text.contains("### C"));
    assert_eq!((out[1].start_line, out[1].end_line), (8, 9));
    assert_eq!(out[1].breadcrumb, "# D");
}

#[test]
fn preamble_before_first_heading_is_a_chunk() {
    let text = "intro line\nmore intro\n# A\nbody\n";
    let out = chunks(text, 80);
    assert_eq!(out.len(), 2);
    assert_eq!((out[0].start_line, out[0].end_line), (1, 2));
    assert_eq!(out[0].breadcrumb, "");
    assert_eq!((out[1].start_line, out[1].end_line), (3, 4));
}

#[test]
fn long_leaf_section_splits_with_part_labels() {
    let mut text = String::from("# Big\n");
    for i in 1..=100 {
        text.push_str(&format!("line {i}\n"));
    }
    let out = chunks(&text, 20);
    assert_eq!(out.len(), 6); // 101 lines / 20
    assert_eq!((out[0].start_line, out[0].end_line), (1, 20));
    assert_eq!(out[0].breadcrumb, "# Big [Part 1/6]");
    assert_eq!((out[5].start_line, out[5].end_line), (101, 101));
    assert_eq!(out[5].breadcrumb, "# Big [Part 6/6]");
}

#[test]
fn oversized_section_recurses_into_subsections() {
    let mut text = String::from("# Top\nintro\n");
    text.push_str("## S1\n");
    for i in 1..=5 {
        text.push_str(&format!("s1 line {i}\n"));
    }
    text.push_str("## S2\n");
    for i in 1..=5 {
        text.push_str(&format!("s2 line {i}\n"));
    }
    // 15 lines total, max 10: too big as one chunk, children fit individually.
    let out = chunks(&text, 10);
    assert_eq!(out.len(), 3);
    assert_eq!((out[0].start_line, out[0].end_line), (1, 2));
    assert_eq!(out[0].breadcrumb, "# Top");
    assert_eq!((out[1].start_line, out[1].end_line), (3, 8));
    assert_eq!(out[1].breadcrumb, "# Top > ## S1");
    assert_eq!((out[2].start_line, out[2].end_line), (9, 14));
    assert_eq!(out[2].breadcrumb, "# Top > ## S2");
}

#[test]
fn frontmatter_offsets_lines_and_feeds_first_chunk() {
    let text = "---\nname: my-card\ndescription: 一张卡片\n---\n\n# A\nbody\n";
    let out = chunk_markdown("test.md", text, 80, Some("my-card"), Some("一张卡片"), true).unwrap();
    assert_eq!(out.len(), 1);
    assert_eq!((out[0].start_line, out[0].end_line), (6, 7));
    assert!(out[0].search_text.starts_with("my-card\n一张卡片\n"));
    assert!(!out[0].text.contains("my-card"));
}

#[test]
fn frontmatter_only_document_still_yields_a_chunk() {
    let text = "---\nname: stub\ndescription: 只有元数据\n---\n";
    let out = chunk_markdown("test.md", text, 80, Some("stub"), Some("只有元数据"), true).unwrap();
    assert_eq!(out.len(), 1);
    assert!(out[0].search_text.contains("stub"));
}

#[test]
fn headings_inside_code_fences_are_ignored() {
    let text = "# Real\n```\n# not a heading\n```\nbody\n";
    let out = chunks(text, 80);
    assert_eq!(out.len(), 1);
    assert_eq!((out[0].start_line, out[0].end_line), (1, 5));
}

#[test]
fn chunk_text_and_search_text_carry_the_breadcrumb() {
    let out = chunks("# A\nx\n# B\ny", 80);
    assert_eq!(out.len(), 2);
    assert_eq!(out[0].text, "# A\nx");
    assert_eq!(out[0].search_text, "# A\n# A\nx");
    assert_eq!(out[1].text, "# B\ny");
    assert_eq!(out[0].path, "test.md");
}

#[test]
fn frontmatter_only_chunk_trims_prefix() {
    let out = chunk_markdown("n.md", "---\nname: x\n---\n", 80, Some("x"), None, true).unwrap();
    assert_eq!(out.len(), 1);
    assert_eq!(out[0].search_text, "x");
    assert_eq!((out[0].start_line, out[0].end_line), (1, 1));
    assert_eq!(out[0].text, "");
}

#[test]
fn invalid_frontmatter_chunks_whole_text() {
    let text = "---\nname: [\n\n---\n# A\nbody\n";
    let out = chunk_markdown("test.md", text, 80, None, None, false).unwrap();
    assert_eq!(out.len(), 2);
    assert_eq!((out[0].start_line, out[0].end_line), (1, 4));
    assert_eq!(out[0].breadcrumb, "");
    assert_eq!((out[1].start_line, out[1].end_line), (5, 6));
}

#[test]
fn empty_document_has_no_chunks() {
    let out = chunk_markdown("e.md", "", DEFAULT_MAX_CHUNK_LINES, None, None, true).unwrap();
    assert!(out.is_empty());
}

#[test]
fn preamble_only_document_splits_without_labels_when_short() {
    let out = chunks("a\nb\nc", 2);
    assert_eq!(out.len(), 2);
    assert_eq!(out[0].breadcrumb, " [Part 1/2]");
    assert_eq!((out[1].start_line, out[1].end_line), (3, 3));
}
