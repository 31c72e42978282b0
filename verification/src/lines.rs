//! Discovery of lines in a byte slice (typically representing code).

use vstd::prelude::*;

verus! {

/// The byte that separates two lines.
pub const NEWLINE: u8 = 10;

/// The index at which the line around `idx` starts: just behind the
/// last line break before `idx`, or at the very beginning.
pub open spec fn line_start(code: Seq<u8>, idx: int) -> int
    decreases idx,
{
    if idx <= 0 {
        0
    } else if code[idx - 1] == NEWLINE {
        idx
    } else {
        line_start(code, idx - 1)
    }
}

/// The index at which the line around `idx` ends: at the first line
/// break at or behind `idx`, or at the very end.
pub open spec fn line_end(code: Seq<u8>, idx: int) -> int
    decreases code.len() - idx,
{
    if idx >= code.len() {
        code.len() as int
    } else if code[idx] == NEWLINE {
        idx
    } else {
        line_end(code, idx + 1)
    }
}

/// The line around `idx`, without its line break.
pub open spec fn line_at(code: Seq<u8>, idx: int) -> Seq<u8> {
    code.subrange(line_start(code, idx), line_end(code, idx))
}

/// Where iteration continues behind the line around `idx`, if anything
/// is left behind that line's break.
pub open spec fn next_line_index(code: Seq<u8>, idx: int) -> Option<int> {
    if line_end(code, idx) + 1 >= code.len() {
        None
    } else {
        Some(line_end(code, idx) + 1)
    }
}

/// `line_start` is the one index at or before `idx` that follows a line
/// break (or is zero) and has no line break between itself and `idx`.
pub proof fn lemma_line_start_bounds(code: Seq<u8>, idx: int)
    requires
        0 <= idx <= code.len(),
    ensures
        0 <= line_start(code, idx) <= idx,
        line_start(code, idx) == 0 || code[line_start(code, idx) - 1] == NEWLINE,
        forall|j: int| line_start(code, idx) <= j < idx ==> code[j] != NEWLINE,
    decreases idx,
{
    if idx > 0 && code[idx - 1] != NEWLINE {
        lemma_line_start_bounds(code, idx - 1);
    }
}

/// `line_end` is the one index at or behind `idx` that holds a line
/// break (or is the end) and has no line break between `idx` and itself.
pub proof fn lemma_line_end_bounds(code: Seq<u8>, idx: int)
    requires
        0 <= idx <= code.len(),
    ensures
        idx <= line_end(code, idx) <= code.len(),
        line_end(code, idx) == code.len() || code[line_end(code, idx)] == NEWLINE,
        forall|j: int| idx <= j < line_end(code, idx) ==> code[j] != NEWLINE,
    decreases code.len() - idx,
{
    if idx < code.len() && code[idx] != NEWLINE {
        lemma_line_end_bounds(code, idx + 1);
    }
}

/// An iterator over the lines in a byte slice (typically representing
/// code).
#[derive(Debug)]
pub struct Lines<'src> {
    /// The source code in question.
    code: &'src [u8],
    /// The index at which we continue forward searching for lines.
    idx: Option<usize>,
}

impl<'src> Lines<'src> {
    /// The bytes that the lines are taken from.
    pub closed spec fn source(&self) -> Seq<u8> {
        self.code@
    }

    /// The index inside the next line to hand out; `None` once all lines
    /// were handed out.
    pub closed spec fn position(&self) -> Option<int> {
        match self.idx {
            Some(idx) => Some(idx as int),
            None => None,
        }
    }

    #[verifier::type_invariant]
    spec fn in_bounds(self) -> bool {
        self.idx matches Some(idx) ==> idx <= self.code@.len()
    }

    /// Create a new [`Lines`] object, referencing the snippet `code` and
    /// starting line discovery/iteration at index `idx`.
    pub fn new(code: &'src [u8], idx: usize) -> (lines: Self)
        requires
            idx <= code@.len(),
        ensures
            lines.source() == code@,
            lines.position() == Some(idx as int),
    {
        Self { code, idx: Some(idx) }
    }

    /// Find the start of the line around index `idx` of `code`.
    pub fn find_line_start(code: &[u8], idx: usize) -> (start: usize)
        requires
            idx <= code@.len(),
        ensures
            start == line_start(code@, idx as int),
            start <= idx,
            start == 0 || code@[start - 1] == NEWLINE,
            forall|j: int| start <= j < idx ==> code@[j] != NEWLINE,
    {
        let mut start: usize = idx;
        while start > 0 && code[start - 1] != NEWLINE
            invariant
                start <= idx <= code@.len(),
                line_start(code@, idx as int) == line_start(code@, start as int),
            decreases start,
        {
            start = start - 1;
        }
        proof {
            lemma_line_start_bounds(code@, idx as int);
        }
        start
    }

    /// Find the end of the line around index `idx` of `code`.
    pub fn find_line_end(code: &[u8], idx: usize) -> (end: usize)
        requires
            idx <= code@.len(),
        ensures
            end == line_end(code@, idx as int),
            idx <= end <= code@.len(),
            end == code@.len() || code@[end as int] == NEWLINE,
            forall|j: int| idx <= j < end ==> code@[j] != NEWLINE,
    {
        let mut end: usize = idx;
        while end < code.len() && code[end] != NEWLINE
            invariant
                idx <= end <= code@.len(),
                line_end(code@, idx as int) == line_end(code@, end as int),
            decreases code@.len() - end,
        {
            end = end + 1;
        }
        proof {
            lemma_line_end_bounds(code@, idx as int);
        }
        end
    }

    /// Hand out the next line, without its line break, and move on
    /// behind it.
    pub fn next(&mut self) -> (line: Option<&'src [u8]>)
        ensures
            final(self).source() == old(self).source(),
            match old(self).position() {
                Some(idx) => {
                    &&& line matches Some(bytes)
                    &&& bytes@ == line_at(old(self).source(), idx)
                    &&& final(self).position() == next_line_index(old(self).source(), idx)
                },
                None => line is None && final(self).position() is None,
            },
    {
        proof {
            use_type_invariant(&*self);
        }
        if let Some(idx) = self.idx {
            let start = Self::find_line_start(self.code, idx);
            let end = Self::find_line_end(self.code, idx);
            let line = vstd::slice::slice_subrange(self.code, start, end);

            if end >= self.code.len() || end + 1 >= self.code.len() {
                self.idx = None;
            } else {
                self.idx = Some(end + 1);
            }
            Some(line)
        } else {
            None
        }
    }
}

} // verus!
