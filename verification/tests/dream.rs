use koala::memory::dream::{
    changed_files, corpus, digest_target, extract_prompt, integration_request, select_units, units_span,
    DreamReport, Unit,
};

fn unit(name: &str, bucket: &str) -> Unit {
    Unit {
        name: name.into(),
        bucket: bucket.into(),
        summary: "s".into(),
        paths: vec!["daily/a.md".into(), "daily/b.md".into()],
    }
}

#[test]
fn parse_units_lenient() {
    let reply = "结果如下：\n[{\"name\": \"rust-notes\", \"bucket\": \"wiki\", \"summary\": \"s\", \"paths\": [\"daily/2026-09-17/rust.md\"]}]\n完毕";
    let span = units_span(reply).unwrap();
    assert!(span.starts_with("[{\"name\": \"rust-notes\""));
    assert!(span.ends_with("]}]"));
    assert!(units_span("没有 json").is_none());
    assert!(units_span("[ only").is_none());
}

#[test]
fn report_lists_integrated_and_failed() {
    let report = DreamReport {
        scanned: 3,
        changed: 2,
        integrated: vec!["digest/wiki/a.md".into()],
        failed: vec!["b".into()],
    };
    assert_eq!(report.render(), "scanned: 3\nchanged: 2\nintegrated: 1\nfailed: 1\n+ digest/wiki/a.md\n! b");
    assert_eq!(DreamReport::default().render(), "scanned: 0\nchanged: 0\nintegrated: 0\nfailed: 0");
}

#[test]
fn only_files_changed_since_their_checkpoint_are_consolidated() {
    let files = vec![("daily/a.md".to_string(), 10), ("daily/b.md".to_string(), 20), ("daily/c.md".to_string(), 30)];
    let checkpoints = vec![("daily/a.md".to_string(), 10), ("daily/b.md".to_string(), 5)];
    let changed = changed_files(&files, &checkpoints);
    assert_eq!(changed, vec![("daily/b.md".to_string(), 20), ("daily/c.md".to_string(), 30)]);
}

#[test]
fn corpus_and_prompt_carry_every_file() {
    let text = corpus(&vec![("daily/a.md".to_string(), "A".to_string()), ("daily/b.md".to_string(), "B".to_string())]);
    assert_eq!(text, "--- 文件 daily/a.md ---\nA\n\n--- 文件 daily/b.md ---\nB\n\n");
    let prompt = extract_prompt(5, &text);
    assert!(prompt.contains("请抽取最多 5 个"));
    assert!(prompt.ends_with(&text));
}

#[test]
fn units_without_names_are_dropped_and_the_count_capped() {
    let units = vec![unit("a", "wiki"), unit("", "wiki"), unit("b", "wiki"), unit("c", "wiki")];
    let kept = select_units(units, 2);
    assert_eq!(kept.iter().map(|u| u.name.as_str()).collect::<Vec<_>>(), vec!["a", "b"]);
    assert!(select_units(vec![unit("", "x")], 3).is_empty());
}

#[test]
fn units_land_in_their_bucket_or_the_wiki() {
    assert_eq!(digest_target("personal", "Rust Notes"), "digest/personal/rust-notes.md");
    assert_eq!(digest_target("other", "x"), "digest/wiki/x.md");
    let (target, system, user) = integration_request(&unit("Borrow", "procedure"));
    assert_eq!(target, "digest/procedure/borrow.md");
    assert!(system.contains("目标文件：digest/procedure/borrow.md"));
    assert_eq!(user, "记忆单元：\nname: Borrow\nbucket: procedure\nsummary: s\n来源：daily/a.md, daily/b.md");
}
