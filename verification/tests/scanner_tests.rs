use file_browser::scanner::{count_lines, read_lines, LineScanner, ScanError};

fn text(lines: &[&str]) -> Vec<String> {
    lines.iter().map(|s| s.to_string()).collect()
}

#[test]
fn count_lines_counts_terminated_lines() {
    assert_eq!(count_lines(b"a\nb\nc\n"), Ok(3));
    assert_eq!(count_lines(b"\n"), Ok(1));
    assert_eq!(count_lines(b"\n\n\n"), Ok(3));
}

#[test]
fn count_lines_counts_trailing_fragment_once() {
    assert_eq!(count_lines(b"a\nb\nc"), Ok(3));
    assert_eq!(count_lines(b"a\nb\nc\nd"), Ok(4));
    assert_eq!(count_lines(b"x"), Ok(1));
}

#[test]
fn count_lines_of_empty_text_is_zero() {
    assert_eq!(count_lines(b""), Ok(0));
}

#[test]
fn count_lines_refuses_invalid_utf8() {
    assert_eq!(count_lines(b"ok\n\xff\xfe\nok\n"), Err(ScanError::InvalidUtf8));
    assert_eq!(count_lines(b"ok\n\xc3"), Err(ScanError::InvalidUtf8));
}

#[test]
fn read_lines_returns_the_window() {
    let data = b"one\ntwo\nthree\nfour\nfive\n";
    assert_eq!(read_lines(data, 1, 2), Ok(text(&["one", "two"])));
    assert_eq!(read_lines(data, 2, 3), Ok(text(&["two", "three", "four"])));
    assert_eq!(read_lines(data, 5, 1), Ok(text(&["five"])));
    assert_eq!(read_lines(data, 1, 5), Ok(text(&["one", "two", "three", "four", "five"])));
}

#[test]
fn read_lines_is_cut_short_by_the_end_of_the_text() {
    let data = b"one\ntwo\nthree\nfour\nfive\n";
    assert_eq!(read_lines(data, 4, 10), Ok(text(&["four", "five"])));
    assert_eq!(read_lines(data, 6, 10), Ok(text(&[])));
    assert_eq!(read_lines(data, 100, 10), Ok(text(&[])));
    assert_eq!(read_lines(data, 3, usize::MAX), Ok(text(&["three", "four", "five"])));
    assert_eq!(read_lines(data, usize::MAX, usize::MAX), Ok(text(&[])));
}

#[test]
fn read_lines_with_count_zero_is_empty() {
    assert_eq!(read_lines(b"one\ntwo\n", 1, 0), Ok(text(&[])));
    assert_eq!(read_lines(b"one\ntwo\n", 0, 0), Ok(text(&[])));
}

#[test]
fn read_lines_from_line_zero_ends_before_line_count() {
    let data = b"one\ntwo\nthree\n";
    assert_eq!(read_lines(data, 0, 3), Ok(text(&["one", "two"])));
    assert_eq!(read_lines(data, 0, 1), Ok(text(&[])));
}

#[test]
fn read_lines_strips_carriage_returns_before_line_feeds_only() {
    assert_eq!(read_lines(b"a\r\nb\rc\r\n\r\nd\r", 1, 10), Ok(text(&["a", "b\rc", "", "d\r"])));
    assert_eq!(read_lines(b"a\r\r\n", 1, 10), Ok(text(&["a\r"])));
}

#[test]
fn read_lines_does_not_look_behind_the_window() {
    let data = b"one\ntwo\n\xff\xff\n";
    assert_eq!(read_lines(data, 1, 2), Ok(text(&["one", "two"])));
    assert_eq!(read_lines(data, 1, 3), Err(ScanError::InvalidUtf8));
    assert_eq!(read_lines(data, 3, 1), Err(ScanError::InvalidUtf8));
}

#[test]
fn read_lines_refuses_invalid_utf8_before_the_window() {
    let data = b"\xff\none\ntwo\n";
    assert_eq!(read_lines(data, 2, 1), Err(ScanError::InvalidUtf8));
}

#[test]
fn read_lines_decodes_utf8() {
    let data = "caf\u{e9}\n\u{65e5}\u{672c}\u{8a9e}\n".as_bytes();
    assert_eq!(read_lines(data, 1, 2), Ok(text(&["caf\u{e9}", "\u{65e5}\u{672c}\u{8a9e}"])));
}

#[test]
fn scanner_waits_for_input_until_a_line_is_complete() {
    let mut scanner = LineScanner::new();
    assert_eq!(scanner.read_line(), Err(ScanError::Incomplete));
    scanner.feed(b"hel");
    assert_eq!(scanner.read_line(), Err(ScanError::Incomplete));
    assert_eq!(scanner.buffered(), 3);
    scanner.feed(b"lo\nwor");
    assert_eq!(scanner.read_line(), Ok(Some("hello".to_string())));
    assert_eq!(scanner.read_line(), Err(ScanError::Incomplete));
    scanner.feed(b"ld");
    assert!(!scanner.is_ended());
    scanner.finish();
    assert!(scanner.is_ended());
    assert_eq!(scanner.read_line(), Ok(Some("world".to_string())));
    assert_eq!(scanner.read_line(), Ok(None));
    assert_eq!(scanner.read_line(), Ok(None));
    assert_eq!(scanner.buffered(), 0);
}

#[test]
fn scanner_gives_the_same_lines_for_every_chunking() {
    let data = b"alpha\r\nbeta\n\ngamma\r\ndelta";
    let expected = text(&["alpha", "beta", "", "gamma", "delta"]);
    for size in 1..=data.len() {
        let mut scanner = LineScanner::new();
        let mut lines = Vec::new();
        for chunk in data.chunks(size) {
            scanner.feed(chunk);
            loop {
                match scanner.read_line() {
                    Ok(Some(line)) => lines.push(line),
                    Ok(None) => panic!("input has not ended"),
                    Err(ScanError::Incomplete) => break,
                    Err(ScanError::InvalidUtf8) => panic!("valid text"),
                }
            }
        }
        scanner.finish();
        while let Some(line) = scanner.read_line().unwrap() {
            lines.push(line);
        }
        assert_eq!(lines, expected);
    }
}

#[test]
fn scanner_splits_a_carriage_return_from_its_line_feed_across_chunks() {
    let mut scanner = LineScanner::new();
    scanner.feed(b"a\r");
    assert_eq!(scanner.read_line(), Err(ScanError::Incomplete));
    scanner.feed(b"\nb");
    assert_eq!(scanner.read_line(), Ok(Some("a".to_string())));
    scanner.finish();
    assert_eq!(scanner.read_line(), Ok(Some("b".to_string())));
    assert_eq!(scanner.read_line(), Ok(None));
}

#[test]
fn scanner_skips_a_line_that_is_not_utf8() {
    let mut scanner = LineScanner::new();
    scanner.feed(b"good\n\xff\nafter\n");
    scanner.finish();
    assert_eq!(scanner.read_line(), Ok(Some("good".to_string())));
    assert_eq!(scanner.read_line(), Err(ScanError::InvalidUtf8));
    assert_eq!(scanner.read_line(), Ok(Some("after".to_string())));
    assert_eq!(scanner.read_line(), Ok(None));
}

#[test]
fn scanner_keeps_a_trailing_carriage_return_of_the_last_fragment() {
    let mut scanner = LineScanner::new();
    scanner.feed(b"x\r");
    scanner.finish();
    assert_eq!(scanner.read_line(), Ok(Some("x\r".to_string())));
    assert_eq!(scanner.read_line(), Ok(None));
}
