//! Tests of reporting in terminal style.

use bpflint::report_terminal;
use bpflint::LintMatch;
use bpflint::Point;
use bpflint::Range;

/// Remove the indentation that all lines of `text` share, and the
/// line break that `text` starts with.
fn unindent_report(text: &str) -> String {
    let lines: Vec<&str> = text.split('\n').collect();
    let indent = lines
        .iter()
        .skip(1)
        .filter(|line| !line.trim().is_empty())
        .map(|line| line.len() - line.trim_start_matches(' ').len())
        .min()
        .unwrap_or(0);
    let mut result = String::new();
    for (i, line) in lines.iter().enumerate() {
        if i > 1 || (i == 1 && !lines[0].is_empty()) {
            result.push('\n');
        }
        if i == 0 {
            result.push_str(line);
        } else if line.len() > indent {
            result.push_str(&line[indent..]);
        }
    }
    result
}


/// Tests that a match with an empty range includes no code snippet.
#[test]
fn empty_range_reporting() {
    let code = unindent_report(r#"
          int main() {}
        "#);

    let m = LintMatch {
        lint_name: "bogus-file-extension".to_string(),
        message: "by convention BPF C code should use the file extension '.bpf.c'".to_string(),
        range: Range {
            bytes: 0..0,
            start_point: Point::default(),
            end_point: Point::default(),
        },
    };
    let report = report_terminal(&m, code.as_bytes(), "./no_bytes.c");
    let expected = unindent_report(r#"
          warning: [bogus-file-extension] by convention BPF C code should use the file extension '.bpf.c'
            --> ./no_bytes.c:0:0
        "#);
    assert_eq!(report, expected);
}

/// Make sure that multi-line matches are reported correctly.
#[test]
fn multi_line_report() {
    let code = unindent_report(r#"
          SEC("tp_btf/sched_switch")
          int handle__sched_switch(u64 *ctx) {
              bpf_probe_read(
                event.comm,
                TASK_COMM_LEN,
                prev->comm);
              return 0;
          }
        "#);

    let m = LintMatch {
        lint_name: "probe-read".to_string(),
        message: "bpf_probe_read() is deprecated".to_string(),
        range: Range {
            bytes: 68..140,
            start_point: Point { row: 2, col: 4 },
            end_point: Point { row: 5, col: 17 },
        },
    };
    let report = report_terminal(&m, code.as_bytes(), "<stdin>");
    let expected = unindent_report(r#"
          warning: [probe-read] bpf_probe_read() is deprecated
            --> <stdin>:2:4
            | 
          2 |  /     bpf_probe_read(
          3 |  |       event.comm,
          4 |  |       TASK_COMM_LEN,
          5 |  |       prev->comm);
            |  |_________________^
            | 
        "#);
    assert_eq!(report, expected);
}

/// Check that our "terminal" reporting works as expected.
#[test]
fn terminal_reporting() {
    let code = unindent_report(r#"
          SEC("tp_btf/sched_switch")
          int handle__sched_switch(u64 *ctx)
          {
              struct task_struct *prev = (struct task_struct *)ctx[1];
              struct event event = {0};
              bpf_probe_read(event.comm, TASK_COMM_LEN, prev->comm);
              return 0;
          }
        "#);

    let m = LintMatch {
        lint_name: "probe-read".to_string(),
        message: "bpf_probe_read() is deprecated".to_string(),
        range: Range {
            bytes: 160..174,
            start_point: Point { row: 6, col: 4 },
            end_point: Point { row: 6, col: 18 },
        },
    };
    let report = report_terminal(&m, code.as_bytes(), "<stdin>");
    let expected = unindent_report(r#"
          warning: [probe-read] bpf_probe_read() is deprecated
            --> <stdin>:6:4
            | 
          6 |     bpf_probe_read(event.comm, TASK_COMM_LEN, prev->comm);
            |     ^^^^^^^^^^^^^^
            | 
        "#);
    assert_eq!(report, expected);
}

/// Check that reporting works properly when the match is on the
/// very first line of input.
#[test]
fn report_top_most_line() {
    let code = unindent_report(r#"
          SEC("kprobe/test")
          int handle__test(void)
          {
          }
        "#);

    let m = LintMatch {
        lint_name: "unstable-attach-point".to_string(),
        message: "kprobe/kretprobe/fentry/fexit are unstable".to_string(),
        range: Range {
            bytes: 4..17,
            start_point: Point { row: 0, col: 4 },
            end_point: Point { row: 0, col: 17 },
        },
    };
    let report = report_terminal(&m, code.as_bytes(), "<stdin>");
    let expected = unindent_report(r#"
          warning: [unstable-attach-point] kprobe/kretprobe/fentry/fexit are unstable
            --> <stdin>:0:4
            | 
          0 | SEC("kprobe/test")
            |     ^^^^^^^^^^^^^
            | 
        "#);
    assert_eq!(report, expected);
}
