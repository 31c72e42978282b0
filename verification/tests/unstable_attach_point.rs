//! Tests for the `unstable-attach-point` lint.

use bpflint::lint;
use bpflint::report_terminal;


#[test]
fn basic() {
    let code = r#"
SEC("fentry/do_nanosleep")
int nanosleep(void *ctx) {
}
"#;

    let report = lint(code.as_bytes())
        .unwrap()
        .into_iter()
        .map(|m| report_terminal(&m, code.as_bytes(), "<stdin>"))
        .collect::<String>();

    let expected = r#"warning: [unstable-attach-point] kprobe/kretprobe/fentry/fexit are conceptually unstable and prone to changes between kernel versions; consider more stable attach points such as tracepoints or LSM hooks, if available
  --> <stdin>:1:4
  | 
1 | SEC("fentry/do_nanosleep")
  |     ^^^^^^^^^^^^^^^^^^^^^
  | 
"#;
    assert_eq!(report, expected);
}


#[test]
fn basic2() {
    let code = r#"
SEC("kprobe/cap_capable")

int BPF_KPROBE(kprobe__foobar, const struct cred *cred,
               struct user_namespace *targ_ns, int cap, int cap_opt) {
"#;

    let report = lint(code.as_bytes())
        .unwrap()
        .into_iter()
        .map(|m| report_terminal(&m, code.as_bytes(), "<stdin>"))
        .collect::<String>();

    let expected = r#"warning: [unstable-attach-point] kprobe/kretprobe/fentry/fexit are conceptually unstable and prone to changes between kernel versions; consider more stable attach points such as tracepoints or LSM hooks, if available
  --> <stdin>:1:4
  | 
1 | SEC("kprobe/cap_capable")
  |     ^^^^^^^^^^^^^^^^^^^^
  | 
"#;
    assert_eq!(report, expected);
}
