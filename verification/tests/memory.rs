use koala::memory::hook::{memory_context, read_only, HitText, MAX_CONTEXT_CHARS};
use koala::memory::bm25::{is_cjk, tokenize, Bm25Index};

#[test]
fn tokenizes_mixed_chinese_english() {
    let tokens = tokenize("Rust语言 Memory");
    assert!(tokens.contains(&"rust".to_string()));
    assert!(tokens.contains(&"memory".to_string()));
    assert!(tokens.contains(&"语".to_string()));
    assert!(tokens.contains(&"言".to_string()));
    assert!(tokens.contains(&"语言".to_string()));
}

#[test]
fn single_cjk_char_is_kept_as_unigram() {
    let tokens = tokenize("配置");
    assert!(tokens.contains(&"配".to_string()));
    assert!(tokens.contains(&"置".to_string()));
    assert!(tokens.contains(&"配置".to_string()));
    let lone = tokenize("a 锈 b");
    assert!(lone.contains(&"锈".to_string()));
}

#[test]
fn latin_runs_lowercase_and_split_on_punctuation() {
    let tokens = tokenize("Hello, World!GPT-4o");
    assert!(tokens.contains(&"hello".to_string()));
    assert!(tokens.contains(&"world".to_string()));
    assert!(tokens.contains(&"gpt".to_string()));
    assert!(tokens.contains(&"4o".to_string()));
}

#[test]
fn tokens_come_in_reading_order() {
    assert_eq!(tokenize("Rust语言 Memory"), vec!["rust", "语", "语言", "言", "memory"]);
    assert_eq!(tokenize(""), Vec::<String>::new());
    assert_eq!(tokenize("a语b"), vec!["a", "语", "b"]);
}

#[test]
fn cjk_ranges_cover_han_kana_and_hangul() {
    assert!(is_cjk('语'));
    assert!(is_cjk('か'));
    assert!(is_cjk('한'));
    assert!(!is_cjk('a'));
    assert!(!is_cjk('é'));
}

#[test]
fn index_counts_terms_per_document() {
    let docs = vec![
        tokenize("rust 系统编程 性能 内存安全"),
        tokenize("香蕉 苹果 水果 沙拉 食谱"),
        tokenize("rust borrow checker rust"),
    ];
    let index = Bm25Index::build(&docs);
    assert_eq!(index.len(), 3);
    assert_eq!(index.tf(2, "rust"), 2);
    assert_eq!(index.tf(0, "rust"), 1);
    assert_eq!(index.tf(1, "rust"), 0);
    assert_eq!(index.df("rust"), 2);
    assert_eq!(index.df("水果"), 1);
    assert_eq!(index.df("missing"), 0);
    assert_eq!(index.doc_len(2), 4);
    assert_eq!(index.total(), docs.iter().map(|d| d.len()).sum::<usize>());
}

#[test]
fn empty_index_has_no_statistics() {
    let index = Bm25Index::build(&vec![]);
    assert_eq!(index.len(), 0);
    assert_eq!(index.total(), 0);
    assert_eq!(index.df("rust"), 0);
}

#[test]
fn memory_context_lists_hits_and_is_bounded() {
    let hits = vec![HitText {
        path: "digest/wiki/rust.md".to_string(),
        start_line: 3,
        end_line: 9,
        text: "ownership".to_string(),
    }];
    let context = memory_context(&hits);
    assert!(context.starts_with("可用 memory_search"));
    assert!(context.ends_with("\ndigest/wiki/rust.md:3-9\nownership\n"));
    let long = vec![HitText {
        path: "a.md".to_string(),
        start_line: 1,
        end_line: 2,
        text: "x".repeat(20_000),
    }];
    assert_eq!(memory_context(&long).chars().count(), MAX_CONTEXT_CHARS);
    assert!(read_only("memory_search") && read_only("memory_read"));
    assert!(!read_only("memory_write"));
}
