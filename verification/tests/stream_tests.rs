use file_browser::scanner::{count_lines, read_lines, LineCounter, LineWindow, ScanError};

#[test]
fn line_counter_counts_across_chunks() {
    let mut counter = LineCounter::new();
    assert_eq!(counter.lines_so_far(), 0);
    counter.feed(b"a\nb");
    assert_eq!(counter.lines_so_far(), 1);
    assert_eq!(counter.bytes_fed(), 3);
    counter.feed(b"b\n\nc");
    assert_eq!(counter.lines_so_far(), 3);
    assert_eq!(counter.bytes_fed(), 7);
    assert_eq!(counter.finish(), Ok(4));
}

#[test]
fn line_counter_of_nothing_is_zero() {
    assert_eq!(LineCounter::new().finish(), Ok(0));
    let mut counter = LineCounter::new();
    counter.feed(b"");
    assert_eq!(counter.finish(), Ok(0));
}

#[test]
fn line_counter_agrees_with_count_lines_for_every_chunking() {
    let texts: [&[u8]; 6] = [b"", b"\n", b"a", b"a\n", b"a\r\nb\n\n\nc", b"\n\nx\n"];
    for data in texts {
        let expected = count_lines(data);
        for size in 1..=data.len().max(1) {
            let mut counter = LineCounter::new();
            for chunk in data.chunks(size) {
                counter.feed(chunk);
            }
            assert_eq!(counter.finish(), expected);
        }
    }
}

#[test]
fn line_counter_refuses_invalid_utf8_at_the_end() {
    let mut counter = LineCounter::new();
    counter.feed(b"a\n\xff\n");
    counter.feed(b"b\n");
    assert_eq!(counter.lines_so_far(), 3);
    assert_eq!(counter.finish(), Err(ScanError::InvalidUtf8));
}

#[test]
fn line_counter_accepts_a_character_split_between_chunks() {
    let data = "\u{e9}t\u{e9}\n".as_bytes();
    let mut counter = LineCounter::new();
    counter.feed(&data[..1]);
    counter.feed(&data[1..4]);
    counter.feed(&data[4..]);
    assert_eq!(counter.finish(), Ok(1));
}

#[test]
fn line_window_is_complete_once_its_last_line_is() {
    let mut window = LineWindow::new(2, 2);
    assert!(!window.is_complete());
    window.feed(b"one\ntwo\nthr");
    assert!(!window.is_complete());
    window.feed(b"ee");
    assert!(!window.is_complete());
    window.feed(b"\nfour\n\xff\xff\n");
    assert!(window.is_complete());
    assert_eq!(window.finish(), Ok(vec!["two".to_string(), "three".to_string()]));
}

#[test]
fn line_window_stops_needing_input_at_the_end_of_the_window() {
    let mut window = LineWindow::new(1, 1);
    window.feed(b"first\n");
    assert!(window.is_complete());
    window.feed(b"never looked at \xff\n");
    assert!(window.is_complete());
    assert_eq!(window.finish(), Ok(vec!["first".to_string()]));
}

#[test]
fn line_window_takes_the_last_fragment_when_the_file_ends() {
    let mut window = LineWindow::new(2, 5);
    window.feed(b"a\nb\nc");
    assert!(!window.is_complete());
    assert_eq!(window.finish(), Ok(vec!["b".to_string(), "c".to_string()]));
}

#[test]
fn line_window_of_no_lines_is_complete_at_once() {
    let window = LineWindow::new(1, 0);
    assert!(window.is_complete());
    assert_eq!(window.finish(), Ok(vec![]));
    let window = LineWindow::new(0, 1);
    assert!(window.is_complete());
    assert_eq!(window.finish(), Ok(vec![]));
}

#[test]
fn line_window_fails_on_an_invalid_line_before_its_end() {
    let mut window = LineWindow::new(3, 1);
    window.feed(b"a\n\xff\n");
    assert!(window.is_complete());
    window.feed(b"c\n");
    assert_eq!(window.finish(), Err(ScanError::InvalidUtf8));
}

#[test]
fn line_window_agrees_with_read_lines_for_every_chunking() {
    let data = b"one\r\ntwo\nthree\n\nfive\nsix";
    for start in 0..9usize {
        for count in 0..9usize {
            let expected = read_lines(data, start, count);
            for size in 1..=data.len() {
                let mut window = LineWindow::new(start as u64, count as u64);
                for chunk in data.chunks(size) {
                    if window.is_complete() {
                        break;
                    }
                    window.feed(chunk);
                }
                assert_eq!(window.finish(), expected);
            }
        }
    }
}

#[test]
fn pages_of_a_text_put_together_are_its_lines() {
    let data = b"1\n2\n3\n4\n5\n6\n7\n8\n9\n10\n11";
    let all = read_lines(data, 1, usize::MAX).unwrap();
    assert_eq!(all.len(), 11);
    for page_size in 1..=12usize {
        let pages = (all.len() + page_size - 1) / page_size;
        let mut joined = Vec::new();
        for page in 1..=pages {
            joined.extend(read_lines(data, (page - 1) * page_size + 1, page_size).unwrap());
        }
        assert_eq!(joined, all);
    }
}

#[test]
fn a_window_within_the_text_has_the_lines_at_its_offsets() {
    let data = b"a\nb\nc\nd\ne\n";
    let all = read_lines(data, 1, 5).unwrap();
    for start in 1..=6usize {
        for count in 0..8usize {
            let got = read_lines(data, start, count).unwrap();
            assert_eq!(got.len(), count.min(5 - start + 1));
            for (j, line) in got.iter().enumerate() {
                assert_eq!(line, &all[start - 1 + j]);
            }
        }
    }
}

#[test]
fn line_window_takes_line_numbers_beyond_the_machine_word() {
    let mut window = LineWindow::new(u64::MAX, u64::MAX);
    window.feed(b"a\nb\n");
    assert!(!window.is_complete());
    assert_eq!(window.finish(), Ok(vec![]));
    let mut window = LineWindow::new(2, u64::MAX);
    window.feed(b"a\nb\nc");
    assert_eq!(window.finish(), Ok(vec!["b".to_string(), "c".to_string()]));
}
