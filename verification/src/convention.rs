//! Conventions for files of BPF C code.

use vstd::prelude::*;
use vstd::string::StringExecFns;

use crate::lint::LintMatch;
use crate::lint::MatchView;
use crate::text::chars_of;
use crate::text::ends_with;
use crate::Point;
use crate::Range;

verus! {

/// Whether a file name ends in `.bpf.c`, as by convention the name of
/// a file of BPF C code does.
pub open spec fn is_bpf_c_name(file_name: Seq<char>) -> bool {
    ".bpf.c"@.is_suffix_of(file_name)
}

/// What is reported of a file whose name does not follow the
/// convention: a match of no extent at the very start.
pub open spec fn extension_match() -> MatchView {
    MatchView {
        lint_name: "bogus-file-extension"@,
        message: "by convention BPF C code should use the file extension '.bpf.c'"@,
        range: Range {
            bytes: 0..0,
            start_point: Point { row: 0, col: 0 },
            end_point: Point { row: 0, col: 0 },
        },
    }
}

/// Check whether a file name has the extension `.bpf.c`.
pub fn has_bpf_c_ext(file_name: &str) -> (found: bool)
    ensures
        found == is_bpf_c_name(file_name@),
{
    let name = chars_of(file_name);
    let extension = chars_of(".bpf.c");
    ends_with(name.as_slice(), extension.as_slice())
}

/// The match to report for a file whose name lacks the extension
/// `.bpf.c`.
pub fn bogus_file_extension() -> (m: LintMatch)
    ensures
        m@ == extension_match(),
        m.range.is_empty(),
        m.range.well_formed(),
{
    LintMatch {
        lint_name: String::from_str("bogus-file-extension"),
        message: String::from_str(
            "by convention BPF C code should use the file extension '.bpf.c'",
        ),
        range: Range {
            bytes: 0..0,
            start_point: Point { row: 0, col: 0 },
            end_point: Point { row: 0, col: 0 },
        },
    }
}

} // verus!
