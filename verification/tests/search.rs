use koala::agent::tools::search::{EntryStep, SearchScan};

/// One entry of a simulated walk: depth, name, directory?, file?, path, relative path, content.
type Entry<'a> = (usize, &'a str, bool, bool, &'a str, &'a str, Option<Result<Vec<u8>, String>>);

fn run(mut scan: SearchScan, entries: Vec<Entry>) -> (String, Vec<EntryStep>) {
    let mut steps = Vec::new();
    let mut skip_under: Option<String> = None;
    for (depth, name, is_dir, is_file, path, relative, content) in entries {
        if let Some(prefix) = &skip_under {
            if path.starts_with(prefix.as_str()) {
                continue;
            }
        }
        if !scan.take_entry() {
            break;
        }
        let step = scan.entry(depth, name, is_dir, is_file, path, relative);
        steps.push(step);
        match step {
            EntryStep::SkipDir => skip_under = Some(format!("{path}/")),
            EntryStep::Stop => break,
            EntryStep::Read => {
                if !scan.file(path, content.unwrap()) {
                    break;
                }
            }
            EntryStep::Next => {}
        }
    }
    (scan.finish(), steps)
}

#[test]
fn glob_lists_matching_files_and_skips_hidden_and_generated_dirs() {
    let scan = SearchScan::new("*.rs", None, None, false).unwrap();
    let (out, steps) = run(
        scan,
        vec![
            (0, "root", true, false, "/r", "", None),
            (1, "a.rs", false, true, "/r/a.rs", "a.rs", None),
            (1, ".hidden.rs", false, true, "/r/.hidden.rs", ".hidden.rs", None),
            (1, "target", true, false, "/r/target", "target", None),
            (2, "b.rs", false, true, "/r/target/b.rs", "target/b.rs", None),
            (1, "src", true, false, "/r/src", "src", None),
            (2, "c.rs", false, true, "/r/src/c.rs", "src/c.rs", None),
            (1, "notes.md", false, true, "/r/notes.md", "notes.md", None),
        ],
    );
    assert_eq!(out, r#"{"results":["/r/a.rs"],"truncated":false,"skipped_files":0,"warnings":[]}"#);
    assert_eq!(steps[3], EntryStep::SkipDir);
}

#[test]
fn grep_reports_matching_lines_and_skips_binary_and_unreadable_files() {
    let scan = SearchScan::new("**/*", Some(("needle", true, false)), None, false).unwrap();
    let (out, _) = run(
        scan,
        vec![
            (0, "root", true, false, "/r", "", None),
            (1, "a.txt", false, true, "/r/a.txt", "a.txt", Some(Ok(b"hay\nneedle here\nmore\nneedle".to_vec()))),
            (1, "bin", false, true, "/r/bin", "bin", Some(Ok(vec![1, 0, 2]))),
            (1, "bad", false, true, "/r/bad", "bad", Some(Ok(vec![0xff, 0xfe]))),
            (1, "gone", false, true, "/r/gone", "gone", Some(Err("permission denied".into()))),
        ],
    );
    let expected = [
        r#"{"results":[{"line":2,"path":"/r/a.txt","text":"needle here"},"#,
        r#"{"line":4,"path":"/r/a.txt","text":"needle"}],"truncated":false,"skipped_files":3,"#,
        r#""warnings":["/r/gone: permission denied"]}"#,
    ]
    .concat();
    assert_eq!(out, expected);
}

#[test]
fn limits_truncate_results_with_a_warning() {
    let scan = SearchScan::new("*", None, Some(1), false).unwrap();
    let (out, steps) = run(
        scan,
        vec![
            (0, "root", true, false, "/r", "", None),
            (1, "a", false, true, "/r/a", "a", None),
            (1, "b", false, true, "/r/b", "b", None),
            (1, "c", false, true, "/r/c", "c", None),
        ],
    );
    assert_eq!(steps.last(), Some(&EntryStep::Stop));
    assert!(out.starts_with(r#"{"results":["/r/a"],"truncated":true,"skipped_files":0,"warnings":["Results incomplete"#));
}

#[test]
fn oversized_files_are_skipped_with_a_reason() {
    let scan = SearchScan::new("*", Some(("x", false, true)), None, true).unwrap();
    let big = vec![b'x'; 2 * 1024 * 1024 + 1];
    let (out, _) = run(
        scan,
        vec![
            (0, "root", true, false, "/r", "", None),
            (1, ".big", false, true, "/r/.big", ".big", Some(Ok(big))),
            (1, "small", false, true, "/r/small", "small", Some(Ok(b"X".to_vec()))),
        ],
    );
    assert_eq!(
        out,
        r#"{"results":[{"line":1,"path":"/r/small","text":"X"}],"truncated":false,"skipped_files":1,"warnings":["/r/.big: exceeds 2 MiB"]}"#
    );
}

#[test]
fn invalid_patterns_are_reported() {
    assert_eq!(SearchScan::new("", None, None, false).err().unwrap(), "pattern must not be empty");
    assert!(SearchScan::new("[", None, None, false).err().unwrap().starts_with("invalid glob: "));
    assert_eq!(
        SearchScan::new("*", Some(("", false, false)), None, false).err().unwrap(),
        "pattern must not be empty"
    );
    assert!(SearchScan::new("*", Some(("(", false, false)), None, false).err().unwrap().starts_with("invalid regex: "));
    assert!(SearchScan::new("*", Some(("(", true, false)), None, false).is_ok());
}
