//! Tests of the conventions for files.

use bpflint::has_bpf_c_ext;

/// tests whether `has_bpf_c_ext` correctly returns true
/// for *.bpf.c files else false
#[test]
fn test_has_bpf_c_ext() {
    assert!(has_bpf_c_ext("file.bpf.c"));
    assert!(has_bpf_c_ext("/path/to/file.bpf.c"));
    assert!(has_bpf_c_ext("C:\\Windows\\file.bpf.c"));

    assert!(!has_bpf_c_ext("file.c"));
    assert!(!has_bpf_c_ext("file.bpf.h"));
    assert!(!has_bpf_c_ext("filebpfc"));
}
