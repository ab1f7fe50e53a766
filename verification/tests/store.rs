use koala::markdown::extract_wikilinks;
use koala::memory::store::{expand_links, select_lines, valid_rel_path, FileMeta, IndexedFile};

const RUST_CARD: &str = "---\nname: rust-notes\ndescription: Rust 学习笔记\n---\n\n# Rust\n\n讨论了 [[digest/wiki/borrow.md|借用检查]] 的所有权规则。\n";
const BORROW_CARD: &str = "---\nname: borrow-checker\ndescription: 借用检查器要点\n---\n\n# Borrow\n\n借用检查保证引用有效。\n";

fn indexed(path: &str, text: &str, name: &str, description: &str) -> IndexedFile {
    IndexedFile {
        path: path.into(),
        meta: FileMeta { name: Some(name.into()), description: Some(description.into()) },
        outlinks: extract_wikilinks(text).into_iter().map(|l| l.target).collect(),
    }
}

fn seeded() -> Vec<IndexedFile> {
    vec![
        indexed("daily/2026-09-17/rust.md", RUST_CARD, "rust-notes", "Rust 学习笔记"),
        indexed("digest/wiki/borrow.md", BORROW_CARD, "borrow-checker", "借用检查器要点"),
    ]
}

#[test]
fn expand_links_returns_out_and_in_neighbors() {
    let files = seeded();
    let out = expand_links(&files, "daily/2026-09-17/rust.md");
    assert_eq!(out.len(), 1);
    assert_eq!(out[0].path, "digest/wiki/borrow.md");
    assert_eq!(out[0].name.as_deref(), Some("borrow-checker"));
    assert_eq!(out[0].description.as_deref(), Some("借用检查器要点"));

    let back = expand_links(&files, "digest/wiki/borrow.md");
    assert_eq!(back.len(), 1);
    assert_eq!(back[0].path, "daily/2026-09-17/rust.md");
    assert_eq!(back[0].name.as_deref(), Some("rust-notes"));
}

#[test]
fn neighbours_are_sorted_unique_and_unknown_targets_have_no_meta() {
    let files = vec![
        IndexedFile {
            path: "a.md".into(),
            meta: FileMeta::default(),
            outlinks: vec!["z.md".into(), "b.md".into(), "z.md".into()],
        },
        IndexedFile { path: "b.md".into(), meta: FileMeta::default(), outlinks: vec!["a.md".into()] },
        IndexedFile { path: "c.md".into(), meta: FileMeta::default(), outlinks: vec!["a.md".into()] },
    ];
    let out = expand_links(&files, "a.md");
    let paths: Vec<&str> = out.iter().map(|n| n.path.as_str()).collect();
    assert_eq!(paths, vec!["b.md", "c.md", "z.md"]);
    assert!(out[2].name.is_none() && out[2].description.is_none());
    assert!(expand_links(&files, "missing.md").is_empty());
}

#[test]
fn read_lines_returns_inclusive_clamped_range() {
    assert_eq!(select_lines(BORROW_CARD, 6, 7), "# Borrow\n");
    assert!(select_lines(BORROW_CARD, 7, 999).contains("借用检查保证引用有效。"));
    assert!(select_lines(BORROW_CARD, 500, 600).is_empty());
}

#[test]
fn reversed_and_extreme_line_ranges_are_empty() {
    for (start, end) in [(7, 2), (1, 0), (usize::MAX, usize::MAX)] {
        assert!(select_lines(BORROW_CARD, start, end).is_empty());
    }
    assert_eq!(select_lines(BORROW_CARD, 0, 1), "---");
}

#[test]
fn rejects_paths_escaping_workspace() {
    assert!(!valid_rel_path("../outside.md"));
    assert!(!valid_rel_path("/etc/passwd"));
    assert!(!valid_rel_path(""));
    assert!(!valid_rel_path("daily/../../x.md"));
    assert!(!valid_rel_path("daily/.."));
    assert!(valid_rel_path("daily/2026-09-17/rust.md"));
    assert!(valid_rel_path("./daily/a..b.md"));
    assert!(valid_rel_path("metadata/catalog.json"));
}
