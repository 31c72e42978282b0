//! Tests for the lints shipped with the library.

use bpflint::builtin_lints;
use bpflint::is_lower_ascii_slug;
use bpflint::lint;
use bpflint::report_terminal;
use bpflint::LintMeta;

/// Remove the indentation that all lines of `text` share, and the
/// line break that `text` starts with.
fn unindent_lints(text: &str) -> String {
    let lines: Vec<&str> = text.split('\n').collect();
    let indent = lines
        .iter()
        .skip(1)
        .filter(|line| !line.trim().is_empty())
        .map(|line| line.len() - line.trim_start_matches(' ').len())
        .min()
        .unwrap_or(0);
    let mut result = String::new();
    for (i, line) in lines.iter().enumerate() {
        if i > 1 || (i == 1 && !lines[0].is_empty()) {
            result.push('\n');
        }
        if i == 0 {
            result.push_str(line);
        } else if line.len() > indent {
            result.push_str(&line[indent..]);
        }
    }
    result
}

/// Lint `code` and report matches as a string created using
/// [`report_terminal`].
fn lint_report<C>(code: C) -> String
where
    C: AsRef<[u8]>,
{
    lint(code.as_ref())
        .unwrap()
        .into_iter()
        .map(|m| report_terminal(&m, code.as_ref(), "<stdin>"))
        .collect()
}

#[test]
fn perf_map_usage() {
    let code = unindent_lints(r#"
      struct {
        int a;
        __uint(type, BPF_MAP_TYPE_PERF_EVENT_ARRAY);
      } name;
    "#);

    let expected = unindent_lints(r#"
      warning: [perf-buff-map] Using ring buffers is preferred over perf buffers
        --> <stdin>:2:2
        | 
      2 |   __uint(type, BPF_MAP_TYPE_PERF_EVENT_ARRAY);
        |   ^^^^^^^^^^^^^^^^^^^^^^^^^^^^^^^^^^^^^^^^^^^
        | 
    "#);
    assert_eq!(lint_report(code), expected);
}

#[test]
fn probe_read_basic() {
    let code = r#"
SEC("tp_btf/sched_switch")
int handle__sched_switch(u64 *ctx)
{
    struct task_struct *prev = (struct task_struct *)ctx[1];
    struct event event = {0};
    bpf_probe_read(event.comm, TASK_COMM_LEN, prev->comm);
    return 0;
}
"#;

    let expected = r#"warning: [probe-read] bpf_probe_read() is deprecated and replaced by bpf_probe_user() and bpf_probe_kernel(); refer to bpf-helpers(7)
  --> <stdin>:6:4
  | 
6 |     bpf_probe_read(event.comm, TASK_COMM_LEN, prev->comm);
  |     ^^^^^^^^^^^^^^
  | 
"#;
    assert_eq!(lint_report(code), expected);
}

#[test]
fn unstable_attach_point_basic() {
    let code = unindent_lints(r#"
      SEC("fentry/do_nanosleep")
      int nanosleep(void *ctx) {
      }
    "#);

    let expected = unindent_lints(r#"
      warning: [unstable-attach-point] kprobe/kretprobe/fentry/fexit are conceptually unstable and prone to changes between kernel versions; consider more stable attach points such as tracepoints or LSM hooks, if available
        --> <stdin>:0:4
        | 
      0 | SEC("fentry/do_nanosleep")
        |     ^^^^^^^^^^^^^^^^^^^^^
        | 
    "#);
    assert_eq!(lint_report(code), expected);
}


#[test]
fn unstable_attach_point_basic2() {
    let code = unindent_lints(r#"
      SEC("kprobe/cap_capable")

      int BPF_KPROBE(kprobe__foobar, const struct cred *cred,
                     struct user_namespace *targ_ns, int cap, int cap_opt) {
    "#);

    let expected = unindent_lints(r#"
      warning: [unstable-attach-point] kprobe/kretprobe/fentry/fexit are conceptually unstable and prone to changes between kernel versions; consider more stable attach points such as tracepoints or LSM hooks, if available
        --> <stdin>:0:4
        | 
      0 | SEC("kprobe/cap_capable")
        |     ^^^^^^^^^^^^^^^^^^^^
        | 
    "#);
    assert_eq!(lint_report(code), expected);
}

#[test]
fn basic_sizeof() {
    let code = unindent_lints(r#"
      struct {
          int a;
          __uint(key_size, sizeof(b));
      } name;
    "#);

    let expected = unindent_lints(r#"
      warning: [untyped-map-member] __uint(a, sizeof(b)) does not contain potentially relevant type information, consider using __type(a, b) instead
        --> <stdin>:2:4
        | 
      2 |     __uint(key_size, sizeof(b));
        |     ^^^^^^^^^^^^^^^^^^^^^^^^^^^
        | 
    "#);
    assert_eq!(lint_report(code), expected);
}

#[test]
fn valid() {
    assert!(is_lower_ascii_slug("hello"));
    assert!(is_lower_ascii_slug("hello-world"));
    assert!(is_lower_ascii_slug("a-b-c"));
}

#[test]
fn invalid_chars() {
    assert!(!is_lower_ascii_slug("Hello"));
    assert!(!is_lower_ascii_slug("abc_def"));
    assert!(!is_lower_ascii_slug("naïve"));
}

#[test]
fn hyphen_rules() {
    assert!(!is_lower_ascii_slug("-hello"));
    assert!(!is_lower_ascii_slug("hello-"));
    assert!(!is_lower_ascii_slug("-"));
}

#[test]
fn empty() {
    assert!(!is_lower_ascii_slug(""));
}

/// Check that our lint names comply with repository policy.
#[test]
fn builtin_lint_names() {
    for LintMeta { name, .. } in builtin_lints() {
        assert!(
            is_lower_ascii_slug(&name),
            "lint `{name}` contains invalid characters (allowed: [a-z] and `-`)"
        );
    }
}
