//! Tests of linting.

use bpflint::catalog::lint_definitions;
use bpflint::lint;
use bpflint::lint_multi;
use bpflint::LintMatch;
use bpflint::Point;

use tree_sitter::Query;
use tree_sitter_bpf_c::LANGUAGE;

/// Remove the indentation that all lines of `text` share, and the
/// line break that `text` starts with.
fn unindent_code(text: &str) -> String {
    let lines: Vec<&str> = text.split('\n').collect();
    let indent = lines
        .iter()
        .skip(1)
        .filter(|line| !line.trim().is_empty())
        .map(|line| line.len() - line.trim_start_matches(' ').len())
        .min()
        .unwrap_or(0);
    let mut result = String::new();
    for (i, line) in lines.iter().enumerate() {
        if i > 1 || (i == 1 && !lines[0].is_empty()) {
            result.push('\n');
        }
        if i == 0 {
            result.push_str(line);
        } else if line.len() > indent {
            result.push_str(&line[indent..]);
        }
    }
    result
}


const LINT_FOO: (&str, &str) = (
    "foo",
    r#"
(call_expression
    function: (identifier) @function (#eq? @function "foo")
    (#set! "message" "foo")
)
        "#,
);


/// Check that a missing `message` property is being flagged
/// appropriately.
#[test]
fn missing_message_property() {
    let code = unindent_code(r#"
          test_fn(/* doesn't matter */);
        "#);
    let lint = unindent_code(r#"
          (call_expression
              function: (identifier) @function (#eq? @function "test_fn")
          )
        "#);
    let err = lint_multi(code.as_bytes(), &[("test_fn", lint.as_str())]).unwrap_err();
    assert_eq!(
        err.to_string(),
        "test_fn: failed to find `message` property",
        "{err:?}"
    );
}

/// Check that `tree-sitter` queries represented by built-in lints
/// exhibit the expected set of properties.
#[test]
fn validate_lint_queries() {
    for (name, code) in lint_definitions() {
        let query = Query::new(&LANGUAGE.into(), code).unwrap();
        assert_eq!(
            query.pattern_count(),
            1,
            "lint `{name}` has too many pattern matches: only single one is supported currently"
        );

        let settings = query.property_settings(0);
        assert!(
            settings.iter().any(|prop| &*prop.key == "message"),
            "`message` property is missing for lint `{name}`"
        );
    }
}

/// Check that some basic linting works as expected.
#[test]
fn basic_linting() {
    let code = unindent_code(r#"
          /* A handler for something */
          SEC("tp_btf/sched_switch")
          int handle__sched_switch(u64 *ctx)
          {
              struct task_struct *prev = (struct task_struct *)ctx[1];
              struct event event = {0};
              bpf_probe_read(event.comm, TASK_COMM_LEN, prev->comm);
              return 0;
          }
        "#);

    let matches = lint(code.as_bytes()).unwrap();
    assert_eq!(matches.len(), 1);

    let LintMatch {
        lint_name,
        message,
        range,
    } = &matches[0];
    assert_eq!(lint_name, "probe-read");
    assert!(
        message.starts_with("bpf_probe_read() is deprecated"),
        "{message}"
    );
    assert_eq!(&code[range.bytes.clone()], "bpf_probe_read");
    assert_eq!(range.start_point, Point { row: 6, col: 4 });
    assert_eq!(range.end_point, Point { row: 6, col: 18 });
}

/// Check that reported matches are sorted by line number.
#[test]
fn sorted_match_reporting() {
    let lint_bar = unindent_code(r#"
          (call_expression
              function: (identifier) @function (#eq? @function "bar")
              (#set! "message" "bar")
          )
        "#);
    let code = unindent_code(r#"
          bar();
          foo();
        "#);
    let matches = lint_multi(code.as_bytes(), &[LINT_FOO, ("bar", lint_bar.as_str())]).unwrap();
    assert_eq!(matches.len(), 2);
    assert_eq!(matches[0].lint_name, "bar");
    assert_eq!(matches[1].lint_name, "foo");
}

/// Check that we can disable lints by name for a given statement.
#[test]
fn lint_disabling() {
    let code = unindent_code(r#"
          /* bpflint: disable=foo */
          foo();
          // bpflint: disable=foo
          foo();
          // bpflint: disable=all
          foo();
        "#);
    let matches = lint_multi(code.as_bytes(), &[LINT_FOO]).unwrap();
    assert_eq!(matches.len(), 0, "{matches:?}");
}

/// Check that we can disable lints by name for a given block.
#[test]
fn lint_disabling_recursive() {
    let code = unindent_code(r#"
          /* bpflint: disable=foo */
          {
              {
                  foo();
              }
          }
        "#);
    let matches = lint_multi(code.as_bytes(), &[LINT_FOO]).unwrap();
    assert_eq!(matches.len(), 0, "{matches:?}");

    let code = unindent_code(r#"
          /* bpflint: disable=foo */
          void test_fn(void) {
              foo();
          }
        "#);
    let matches = lint_multi(code.as_bytes(), &[LINT_FOO]).unwrap();
    assert_eq!(matches.len(), 0, "{matches:?}");
}

/// Check that erroneous disabling syntax is not accidentally recognized.
#[test]
fn lint_invalid_disabling() {
    let code = unindent_code(r#"
          /* bpflint: disabled=foo */
          foo();
          /* disabled=foo */
          foo();
          // disabled=foo
          foo();
          // bpflint: foo
          foo();
          // bpflint: disable=bar
          foo();

          void test_fn(void) {
              /* bpflint: disable=foo */
              foobar();
              foo();
          }
        "#);
    let matches = lint_multi(code.as_bytes(), &[LINT_FOO]).unwrap();
    assert_eq!(matches.len(), 6, "{matches:?}");
}
