use summarise_csv::lines::{strip_line_terminator, TextLines};

#[test]
fn strip_removes_newline() {
    assert_eq!(strip_line_terminator("year,data\n"), "year,data");
}

#[test]
fn strip_removes_crlf() {
    assert_eq!(strip_line_terminator("year,data\r\n"), "year,data");
}

#[test]
fn strip_leaves_unterminated_line() {
    assert_eq!(strip_line_terminator("year,data"), "year,data");
    assert_eq!(strip_line_terminator("a\r"), "a\r");
    assert_eq!(strip_line_terminator(""), "");
}

#[test]
fn strip_removes_only_one_terminator() {
    assert_eq!(strip_line_terminator("a\n\n"), "a\n");
}

#[test]
fn text_lines_without_final_newline() {
    let mut lines = TextLines::new("a,b\n1,2\n3");
    assert_eq!(lines.next_line(), Some("a,b"));
    assert_eq!(lines.next_line(), Some("1,2"));
    assert_eq!(lines.next_line(), Some("3"));
    assert_eq!(lines.next_line(), None);
    assert_eq!(lines.next_line(), None);
}

#[test]
fn text_lines_final_newline_starts_no_line() {
    let mut lines = TextLines::new("a,b\n");
    assert_eq!(lines.next_line(), Some("a,b"));
    assert_eq!(lines.next_line(), None);
}

#[test]
fn text_lines_empty_text() {
    let mut lines = TextLines::new("");
    assert_eq!(lines.next_line(), None);
}

#[test]
fn text_lines_blank_and_crlf_lines() {
    let mut lines = TextLines::new("a\r\n\nb\r\n");
    assert_eq!(lines.next_line(), Some("a"));
    assert_eq!(lines.next_line(), Some(""));
    assert_eq!(lines.next_line(), Some("b"));
    assert_eq!(lines.next_line(), None);
}

#[test]
fn text_lines_non_ascii() {
    let mut lines = TextLines::new("é,ü\n1,2");
    assert_eq!(lines.next_line(), Some("é,ü"));
    assert_eq!(lines.next_line(), Some("1,2"));
    assert_eq!(lines.next_line(), None);
}
