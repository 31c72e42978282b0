//! A linter for BPF C code.
//!
//! At the source code level, individual lints can be disabled with
//! source code comments of the form
//! ```c
//! /* bpflint: disable=probe-read */
//! bpf_probe_read(/* ... */);
//! ```
//!
//! In this instance, `probe-read` is the name of the lint to disable.
//!
//! Entire blocks can be annotated as well:
//! ```c
//! /* bpflint: disable=probe-read */
//! void handler(void) {
//!      void *dst = /* ... */
//!      bpf_probe_read(dst, /* ... */);
//! }
//! ```
//!
//! In the above examples, none of the instances of `bpf_probe_read`
//! will be flagged.
//!
//! The directive `bpflint: disable=all` acts as a catch-all, disabling
//! reporting of all lints.

pub mod catalog;
pub mod convention;
pub mod directive;
pub mod lines;
pub mod lint;
pub mod order;
pub mod report;
pub mod sources;
pub mod syntax;
pub mod text;

pub use crate::catalog::is_lower_ascii_slug;
pub use crate::convention::bogus_file_extension;
pub use crate::convention::has_bpf_c_ext;
pub use crate::lines::Lines;
pub use crate::lint::builtin_lints;
pub use crate::lint::lint;
pub use crate::lint::lint_multi;
pub use crate::lint::lint_multi_with_warnings;
pub use crate::lint::lint_with_warnings;
pub use crate::lint::LintError;
pub use crate::lint::LintMatch;
pub use crate::lint::LintMeta;
pub use crate::lint::LintWarning;
pub use crate::report::is_reportable;
pub use crate::report::report_terminal;
pub use crate::sources::file_list_entry;
pub use crate::sources::file_list_path;

use vstd::prelude::*;

verus! {

/// A position in a multi-line text document, in terms of rows and columns.
#[derive(Clone, Copy, Debug, PartialEq, Eq, Structural, Hash, PartialOrd, Ord)]
pub struct Point {
    /// A row number in source code (zero-based).
    pub row: usize,
    /// A column number in source code (zero-based).
    pub col: usize,
}

impl Point {
    /// Whether `self` comes before `other` or coincides with it, rows
    /// first and columns second.
    pub open spec fn at_or_before(self, other: Point) -> bool {
        self.row < other.row || (self.row == other.row && self.col <= other.col)
    }
}

impl Default for Point {
    fn default() -> (point: Self)
        ensures
            point == (Point { row: 0, col: 0 }),
    {
        Point { row: 0, col: 0 }
    }
}

/// A range of positions in a multi-line text document, both in terms of bytes
/// and of rows and columns.
#[derive(Debug, PartialEq, Eq, Hash)]
pub struct Range {
    /// The byte range in the source code.
    pub bytes: core::ops::Range<usize>,
    /// The logical start point of the represented range.
    pub start_point: Point,
    /// The logical end point of the represented range.
    pub end_point: Point,
}

impl Clone for Range {
    fn clone(&self) -> (range: Self)
        ensures
            range == *self,
    {
        Range {
            bytes: self.bytes.start..self.bytes.end,
            start_point: self.start_point,
            end_point: self.end_point,
        }
    }
}

impl Range {
    /// A range is well formed if it ends no earlier than it starts,
    /// both in bytes and in rows and columns.
    pub open spec fn well_formed(self) -> bool {
        &&& self.bytes.start <= self.bytes.end
        &&& self.start_point.at_or_before(self.end_point)
    }

    /// A range that covers no byte at all.
    pub open spec fn is_empty(self) -> bool {
        self.bytes.start >= self.bytes.end
    }
}

} // verus!
