//! The source files to lint, as they are named on the command line:
//! each one by its path, or several at once by a list in a file.

use vstd::prelude::*;
use vstd::string::StrSliceExecFns;

use crate::text::trim_str;
use crate::text::trimmed;

verus! {

/// The path of the file that holds a list of source files, if the
/// argument names such a file: it does so by a leading `@`.
pub open spec fn list_path(argument: Seq<char>) -> Option<Seq<char>> {
    if argument.len() > 0 && argument[0] == '@' {
        Some(argument.skip(1))
    } else {
        None
    }
}

/// The path that a line of a list of source files holds: the line
/// without the white space around it, unless nothing is left of it.
pub open spec fn list_entry(line: Seq<char>) -> Option<Seq<char>> {
    if trimmed(line).len() > 0 {
        Some(trimmed(line))
    } else {
        None
    }
}

/// Check whether an argument names a list of source files, and hand
/// out the path of that list.
pub fn file_list_path(argument: &str) -> (path: Option<&str>)
    ensures
        match path {
            Some(p) => list_path(argument@) == Some(p@),
            None => list_path(argument@) is None,
        },
{
    let length = argument.unicode_len();
    if length > 0 && argument.get_char(0) == '@' {
        Some(argument.substring_char(1, length))
    } else {
        None
    }
}

/// Hand out the path that a line of a list of source files holds, if
/// it holds one.
pub fn file_list_entry(line: &str) -> (entry: Option<&str>)
    ensures
        match entry {
            Some(e) => list_entry(line@) == Some(e@),
            None => list_entry(line@) is None,
        },
{
    let trimmed = trim_str(line);
    if trimmed.unicode_len() > 0 {
        Some(trimmed)
    } else {
        None
    }
}

} // verus!
