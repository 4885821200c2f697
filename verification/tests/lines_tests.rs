use minigrep::text::split_lines;

#[test]
fn final_line_needs_no_terminator() {
    assert_eq!(vec!["one", "two"], split_lines("one\ntwo"));
}

#[test]
fn final_line_feed_opens_no_line() {
    assert_eq!(vec!["one", "two"], split_lines("one\ntwo\n"));
}

#[test]
fn carriage_returns_are_stripped() {
    assert_eq!(vec!["one", "two", "three"], split_lines("one\r\ntwo\r\nthree\r"));
}

#[test]
fn interior_empty_lines_are_kept() {
    assert_eq!(vec!["one", "", "two"], split_lines("one\n\ntwo"));
}

#[test]
fn lone_line_feed_is_one_empty_line() {
    assert_eq!(vec![""], split_lines("\n"));
}

#[test]
fn empty_text_has_no_lines() {
    let lines: Vec<&str> = Vec::new();
    assert_eq!(lines, split_lines(""));
}
