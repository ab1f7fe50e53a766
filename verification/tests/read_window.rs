use koala::agent::tools::files::{ReadStep, ReadWindow, MAX_READ_BYTES};

/// Feeds a file's bytes line by line, each read bounded as the tool bounds it.
fn read(content: &[u8], offset: Option<usize>, limit: Option<usize>) -> Result<String, String> {
    let mut window = ReadWindow::new(offset, limit);
    let mut pos = 0;
    loop {
        if pos == content.len() {
            return window.end("f.txt");
        }
        let rest = &content[pos..];
        let cap = rest.len().min(MAX_READ_BYTES + 1);
        let n = rest[..cap].iter().position(|&b| b == b'\n').map_or(cap, |i| i + 1);
        let line = &rest[..n];
        pos += n;
        match window.line("f.txt", line) {
            ReadStep::More => {}
            ReadStep::Done(result) => return result,
        }
    }
}

#[test]
fn reads_page_by_lines_and_bytes_without_splitting_unicode() {
    let text = "甲\n乙\n丙".as_bytes();
    let first = read(text, None, Some(2)).unwrap();
    assert!(first.contains("offset=3"));
    assert!(first.ends_with("甲\n乙\n"));
    assert_eq!(first, "f.txt\n[Lines 1-2; more content: call read with offset=3]\n甲\n乙\n");
    let last = read(text, Some(3), None).unwrap();
    assert!(last.contains("end of file"));
    assert!(last.ends_with('丙'));
    assert_eq!(last, "f.txt\n[Lines 3-3; end of file]\n丙");
    assert_eq!(read(text, Some(4), None).unwrap_err(), "offset 4 is beyond end of file (3 lines)");
    let big = format!("{}\n{}\n", "中".repeat(7000), "文".repeat(7000));
    let page = read(big.as_bytes(), None, None).unwrap();
    assert!(page.contains("offset=2"));
    assert!(!page.contains('文'));
    assert!(page.len() < MAX_READ_BYTES + 200);
}

#[test]
fn overlong_first_line_and_invalid_text_are_errors() {
    let long = "x".repeat(MAX_READ_BYTES + 1);
    assert!(read(long.as_bytes(), None, None).unwrap_err().contains("bounded extraction"));
    assert_eq!(
        read(long.as_bytes(), None, None).unwrap_err(),
        "line 1 exceeds 32768 bytes; use bash for a bounded extraction"
    );
    assert_eq!(
        read(&[0xff], None, None).unwrap_err(),
        "read supports UTF-8 text only; this file contains invalid UTF-8"
    );
}

#[test]
fn an_overlong_later_line_ends_the_page() {
    let content = format!("a\n{}\n", "y".repeat(MAX_READ_BYTES + 5));
    let page = read(content.as_bytes(), None, None).unwrap();
    assert_eq!(page, "f.txt\n[Lines 1-1; more content: call read with offset=2]\na\n");
}

#[test]
fn empty_files_and_exact_ends() {
    assert_eq!(read(b"", None, None).unwrap(), "f.txt: empty file");
    assert_eq!(read(b"", Some(2), None).unwrap_err(), "offset 2 is beyond end of file (0 lines)");
    assert_eq!(read(b"a\nb\n", None, None).unwrap(), "f.txt\n[Lines 1-2; end of file]\na\nb\n");
}
