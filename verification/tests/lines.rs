//! Tests of the discovery of lines.

use bpflint::Lines;

/// Remove the indentation that all lines of `text` share, and the
/// line break that `text` starts with.
fn unindent_text(text: &str) -> String {
    let lines: Vec<&str> = text.split('\n').collect();
    let indent = lines
        .iter()
        .skip(1)
        .filter(|line| !line.trim().is_empty())
        .map(|line| line.len() - line.trim_start_matches(' ').len())
        .min()
        .unwrap_or(0);
    let mut result = String::new();
    for (i, line) in lines.iter().enumerate() {
        if i > 1 || (i == 1 && !lines[0].is_empty()) {
            result.push('\n');
        }
        if i == 0 {
            result.push_str(line);
        } else if line.len() > indent {
            result.push_str(&line[indent..]);
        }
    }
    result
}

/// Check that the [`Lines::find_line_start`] function works as it
/// should.
#[test]
fn line_start_finding() {
    assert_eq!(Lines::find_line_start(b"", 0), 0);
    assert_eq!(Lines::find_line_start(b"a", 0), 0);
    assert_eq!(Lines::find_line_start(b"a", 1), 0);

    let code = b"\n";
    assert_eq!(Lines::find_line_start(code, 0), 0);
    assert_eq!(Lines::find_line_start(code, 1), 1);

    let code = b"a\n";
    assert_eq!(Lines::find_line_start(code, 0), 0);
    assert_eq!(Lines::find_line_start(code, 1), 0);
    assert_eq!(Lines::find_line_start(code, 2), 2);

    let code = b"ab\ncd";
    assert_eq!(Lines::find_line_start(code, 0), 0);
    assert_eq!(Lines::find_line_start(code, 1), 0);
    assert_eq!(Lines::find_line_start(code, 2), 0);
    assert_eq!(Lines::find_line_start(code, 3), 3);
    assert_eq!(Lines::find_line_start(code, 4), 3);
    assert_eq!(Lines::find_line_start(code, 5), 3);
}

/// Check that the [`Lines::find_line_end`] function works as it
/// should.
#[test]
fn line_end_finding() {
    assert_eq!(Lines::find_line_end(b"", 0), 0);
    assert_eq!(Lines::find_line_end(b"a", 0), 1);
    assert_eq!(Lines::find_line_end(b"a", 1), 1);

    let code = b"\n";
    assert_eq!(Lines::find_line_end(code, 0), 0);
    assert_eq!(Lines::find_line_end(code, 1), 1);

    let code = b"a\n";
    assert_eq!(Lines::find_line_end(code, 0), 1);
    assert_eq!(Lines::find_line_end(code, 1), 1);
    assert_eq!(Lines::find_line_end(code, 2), 2);

    let code = b"\na";
    assert_eq!(Lines::find_line_end(code, 0), 0);
    assert_eq!(Lines::find_line_end(code, 1), 2);
    assert_eq!(Lines::find_line_end(code, 2), 2);

    let code = b"ab\ncd";
    assert_eq!(Lines::find_line_end(code, 0), 2);
    assert_eq!(Lines::find_line_end(code, 1), 2);
    assert_eq!(Lines::find_line_end(code, 2), 2);
    assert_eq!(Lines::find_line_end(code, 3), 5);
    assert_eq!(Lines::find_line_end(code, 4), 5);
    assert_eq!(Lines::find_line_end(code, 5), 5);
}

/// Test that we can iterate over lines in a forward fashion.
#[test]
fn forward_iteration() {
    let mut lines = Lines::new(b"", 0);
    assert_eq!(lines.next(), Some(b"".as_slice()));
    assert_eq!(lines.next(), None);

    let mut lines = Lines::new(b"a", 0);
    assert_eq!(lines.next(), Some(b"a".as_slice()));
    assert_eq!(lines.next(), None);

    let mut lines = Lines::new(b"a", 1);
    assert_eq!(lines.next(), Some(b"a".as_slice()));
    assert_eq!(lines.next(), None);

    let code = unindent_text(r#"
          abc
          cde
          fgh
        "#);
    let code = code.as_bytes();

    let mut lines = Lines::new(code, 0);
    assert_eq!(lines.next(), Some(b"abc".as_slice()));
    assert_eq!(lines.next(), Some(b"cde".as_slice()));
    assert_eq!(lines.next(), Some(b"fgh".as_slice()));
    assert_eq!(lines.next(), None);

    let mut lines = Lines::new(code, 3);
    assert_eq!(lines.next(), Some(b"abc".as_slice()));
    assert_eq!(lines.next(), Some(b"cde".as_slice()));
    assert_eq!(lines.next(), Some(b"fgh".as_slice()));
    assert_eq!(lines.next(), None);

    let mut lines = Lines::new(code, 4);
    assert_eq!(lines.next(), Some(b"cde".as_slice()));
    assert_eq!(lines.next(), Some(b"fgh".as_slice()));
    assert_eq!(lines.next(), None);
}
