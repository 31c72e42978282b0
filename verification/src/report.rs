//! Reports of lint matches in terminal style.

use vstd::arithmetic::power::lemma_pow1;
use vstd::arithmetic::power::pow;
use vstd::prelude::*;
use vstd::string::StringExecFns;
use vstd::utf8::decode_utf8;
use vstd::utf8::valid_utf8;

use crate::lines::line_at;
use crate::lines::next_line_index;
use crate::lines::Lines;
use crate::lint::LintMatch;
use crate::lint::MatchView;
use crate::text::lossy_text;
use crate::text::utf8_lossy;
use crate::Range;

verus! {

/// The character of a decimal digit.
pub open spec fn digit(d: int) -> char {
    ('0' as int + d) as char
}

/// A number in decimal notation.
pub open spec fn decimal(n: nat) -> Seq<char>
    decreases n,
{
    if n < 10 {
        seq![digit(n as int)]
    } else {
        decimal(n / 10).push(digit((n % 10) as int))
    }
}

/// One character, `count` times over.
pub open spec fn repeated(glyph: char, count: nat) -> Seq<char> {
    Seq::new(count, |i: int| glyph)
}

/// The first line of a report: the lint and what it has to say.
pub open spec fn header_line(m: MatchView) -> Seq<char> {
    "warning: ["@ + m.lint_name + "] "@ + m.message + "\n"@
}

/// The second line of a report: where the match starts, as the path and
/// the zero-based row and column.
pub open spec fn location_line(m: MatchView, path: Seq<char>) -> Seq<char> {
    "  --> "@ + path + ":"@ + decimal(m.range.start_point.row as nat) + ":"@ + decimal(
        m.range.start_point.col as nat,
    ) + "\n"@
}

/// What every line of a snippet starts with, unless it shows code: room
/// for the largest line number, which is that of the last row, and a
/// bar.
pub open spec fn gutter(m: MatchView) -> Seq<char> {
    repeated(' ', decimal(m.range.end_point.row as nat).len()) + " | "@
}

/// A line of a snippet that holds nothing but the gutter.
pub open spec fn blank_line(m: MatchView) -> Seq<char> {
    gutter(m) + "\n"@
}

/// The text of the line of `code` around index `idx`: what the line
/// encodes where it is UTF-8, and else what is made of it with
/// replacement characters.
pub open spec fn code_text(code: Seq<u8>, idx: int) -> Seq<char> {
    if valid_utf8(line_at(code, idx)) {
        decode_utf8(line_at(code, idx))
    } else {
        utf8_lossy(line_at(code, idx))
    }
}

/// The line of a snippet that shows the code of a match on one row.
pub open spec fn source_line(m: MatchView, code: Seq<u8>) -> Seq<char> {
    decimal(m.range.start_point.row as nat) + " | "@ + code_text(
        code,
        m.range.bytes.start as int,
    ) + "\n"@
}

/// The number of carets under a match on one row: one per column, and
/// one at least.
pub open spec fn caret_count(m: MatchView) -> nat {
    if m.range.end_point.col > m.range.start_point.col {
        (m.range.end_point.col - m.range.start_point.col) as nat
    } else {
        1
    }
}

/// The line of a snippet that marks a match on one row: carets under
/// its columns.
pub open spec fn marker_line(m: MatchView) -> Seq<char> {
    gutter(m) + repeated(' ', m.range.start_point.col as nat) + repeated('^', caret_count(m))
        + "\n"@
}

/// The line of a snippet that shows one row of a match on several rows:
/// a slash leads the first one and a bar the others.
pub open spec fn bracket_line(code: Seq<u8>, idx: int, row: nat, first: bool) -> Seq<char> {
    decimal(row) + " | "@ + " "@ + (if first {
        "/"@
    } else {
        "|"@
    }) + " "@ + code_text(code, idx) + "\n"@
}

/// The lines of a snippet that show `count` rows of code, from the line
/// around `idx` on, which is row `row`.
pub open spec fn bracket_lines(code: Seq<u8>, idx: int, row: nat, count: nat, first: bool) -> Seq<
    char,
>
    decreases count,
{
    if count == 0 {
        Seq::empty()
    } else {
        bracket_line(code, idx, row, first) + (match next_line_index(code, idx) {
            Some(next) => bracket_lines(code, next, row + 1, (count - 1) as nat, false),
            None => Seq::empty(),
        })
    }
}

/// The line that closes a snippet of several rows: underscores up to
/// the column at which the match ends, and a caret.
pub open spec fn closing_line(m: MatchView) -> Seq<char> {
    gutter(m) + " |"@ + repeated('_', m.range.end_point.col as nat) + "^"@ + "\n"@
}

/// The number of rows of code that the report of a range shows.
pub open spec fn row_count(range: Range) -> nat {
    if range.start_point.row <= range.end_point.row {
        (range.end_point.row - range.start_point.row + 1) as nat
    } else {
        0
    }
}

/// The code of a match with what marks it, between two blank lines.
pub open spec fn snippet(m: MatchView, code: Seq<u8>) -> Seq<char> {
    blank_line(m) + (if m.range.start_point.row == m.range.end_point.row {
        source_line(m, code) + marker_line(m)
    } else {
        bracket_lines(
            code,
            m.range.bytes.start as int,
            m.range.start_point.row as nat,
            row_count(m.range),
            true,
        ) + closing_line(m)
    }) + blank_line(m)
}

/// The report of a match in terminal style.
pub open spec fn report_text(m: MatchView, code: Seq<u8>, path: Seq<char>) -> Seq<char> {
    header_line(m) + location_line(m, path) + (if m.range.is_empty() {
        Seq::empty()
    } else {
        snippet(m, code)
    })
}

/// Whether `code` holds `more` lines behind the line around `idx`.
pub open spec fn lines_behind(code: Seq<u8>, idx: int, more: nat) -> bool
    decreases more,
{
    more == 0 || (match next_line_index(code, idx) {
        Some(next) => lines_behind(code, next, (more - 1) as nat),
        None => false,
    })
}

/// Whether a range can be reported on `code`: it is empty, or it starts
/// inside `code`, which holds a line for each of its rows.
pub open spec fn reportable(range: Range, code: Seq<u8>) -> bool {
    range.is_empty() || (range.bytes.start <= code.len() && (range.start_point.row
        <= range.end_point.row ==> lines_behind(
        code,
        range.bytes.start as int,
        (range.end_point.row - range.start_point.row) as nat,
    )))
}

/// A match with an empty range is reported by the header and the
/// location alone: no snippet of code follows, nor a blank line.
pub proof fn law_empty_range_report(m: MatchView, code: Seq<u8>, path: Seq<char>)
    requires
        m.range.is_empty(),
    ensures
        report_text(m, code, path) == header_line(m) + location_line(m, path),
{
}

/// A match on one row, from one column to a later one, is reported
/// with its line of code and, under it, as many carets as it has
/// columns, indented by the column at which it starts.
pub proof fn law_single_line_marker(m: MatchView, code: Seq<u8>, path: Seq<char>)
    requires
        !m.range.is_empty(),
        m.range.start_point.row == m.range.end_point.row,
        m.range.start_point.col < m.range.end_point.col,
    ensures
        report_text(m, code, path) == header_line(m) + location_line(m, path) + blank_line(m)
            + source_line(m, code) + marker_line(m) + blank_line(m),
        marker_line(m) == gutter(m) + repeated(' ', m.range.start_point.col as nat) + repeated(
            '^',
            (m.range.end_point.col - m.range.start_point.col) as nat,
        ) + "\n"@,
        repeated(' ', m.range.start_point.col as nat).len() == m.range.start_point.col,
        repeated('^', (m.range.end_point.col - m.range.start_point.col) as nat).len()
            == m.range.end_point.col - m.range.start_point.col,
{
    assert(report_text(m, code, path) =~= header_line(m) + location_line(m, path) + blank_line(m)
        + source_line(m, code) + marker_line(m) + blank_line(m));
}

/// The text of one decimal digit.
fn digit_text(d: usize) -> (text: &'static str)
    requires
        d < 10,
    ensures
        text@ == seq![digit(d as int)],
{
    proof {
        reveal_strlit("0");
        reveal_strlit("1");
        reveal_strlit("2");
        reveal_strlit("3");
        reveal_strlit("4");
        reveal_strlit("5");
        reveal_strlit("6");
        reveal_strlit("7");
        reveal_strlit("8");
        reveal_strlit("9");
    }
    let text = if d == 0 {
        "0"
    } else if d == 1 {
        "1"
    } else if d == 2 {
        "2"
    } else if d == 3 {
        "3"
    } else if d == 4 {
        "4"
    } else if d == 5 {
        "5"
    } else if d == 6 {
        "6"
    } else if d == 7 {
        "7"
    } else if d == 8 {
        "8"
    } else {
        "9"
    };
    text
}

/// Write a number in decimal notation.
pub fn push_decimal(out: &mut String, n: usize)
    ensures
        final(out)@ == old(out)@ + decimal(n as nat),
    decreases n,
{
    if n >= 10 {
        push_decimal(out, n / 10);
    }
    out.append(digit_text(n % 10));
}

/// Write one character `count` times over; `glyph` holds that
/// character and nothing else.
pub fn push_repeated(out: &mut String, glyph: &str, count: usize)
    requires
        glyph@.len() == 1,
    ensures
        final(out)@ == old(out)@ + repeated(glyph@[0], count as nat),
{
    let mut done: usize = 0;
    while done < count
        invariant
            glyph@.len() == 1,
            done <= count,
            out@ == old(out)@ + repeated(glyph@[0], done as nat),
        decreases count - done,
    {
        out.append(glyph);
        done = done + 1;
    }
}

/// The number of digits that a number has in decimal notation.
pub fn decimal_width(n: usize) -> (width: usize)
    ensures
        width == decimal(n as nat).len(),
        1 <= width <= 20,
    decreases n,
{
    if n < 10 {
        1
    } else {
        let width = decimal_width(n / 10);
        assert(width < 20) by {
            lemma_decimal_width(n as nat);
        }
        width + 1
    }
}

/// A number below a power of ten has no more digits than that power
/// has zeros.
pub proof fn lemma_decimal_bound(n: nat, digits: nat, bound: nat)
    requires
        digits >= 1,
        bound == pow(10, digits),
        n < bound,
    ensures
        decimal(n).len() <= digits,
    decreases digits,
{
    reveal(pow);
    if n >= 10 {
        if digits == 1 {
            lemma_pow1(10);
        } else {
            lemma_decimal_bound(n / 10, (digits - 1) as nat, pow(10, (digits - 1) as nat) as nat);
        }
    }
}

/// A number that a `usize` holds has twenty digits at most.
pub proof fn lemma_decimal_width(n: nat)
    requires
        n <= usize::MAX,
    ensures
        decimal(n).len() <= 20,
{
    assert(pow(10, 20) == 100000000000000000000int) by {
        reveal_with_fuel(pow, 21);
    }
    lemma_decimal_bound(n, 20, 100000000000000000000nat);
}

/// Write the first line of a report.
fn push_header(out: &mut String, m: &LintMatch)
    ensures
        final(out)@ == old(out)@ + header_line(m@),
{
    out.append("warning: [");
    out.append(m.lint_name.as_str());
    out.append("] ");
    out.append(m.message.as_str());
    out.append("\n");
}

/// Write the second line of a report.
fn push_location(out: &mut String, m: &LintMatch, path: &str)
    ensures
        final(out)@ == old(out)@ + location_line(m@, path@),
{
    out.append("  --> ");
    out.append(path);
    out.append(":");
    push_decimal(out, m.range.start_point.row);
    out.append(":");
    push_decimal(out, m.range.start_point.col);
    out.append("\n");
}

/// Write the gutter of a snippet.
fn push_gutter(out: &mut String, m: &LintMatch)
    ensures
        final(out)@ == old(out)@ + gutter(m@),
{
    proof {
        reveal_strlit(" ");
    }
    // Use the end row here, as it's the largest number, so we end up
    // with a consistent indentation.
    push_repeated(out, " ", decimal_width(m.range.end_point.row));
    out.append(" | ");
}

/// Write a line that holds nothing but the gutter.
fn push_blank_line(out: &mut String, m: &LintMatch)
    ensures
        final(out)@ == old(out)@ + blank_line(m@),
{
    push_gutter(out, m);
    out.append("\n");
}

/// Write the line that shows the code of a match on one row.
fn push_source_line(out: &mut String, m: &LintMatch, lines: &mut Lines)
    requires
        old(lines).position() == Some(m.range.bytes.start as int),
    ensures
        final(out)@ == old(out)@ + source_line(m@, old(lines).source()),
        final(lines).source() == old(lines).source(),
{
    push_decimal(out, m.range.start_point.row);
    out.append(" | ");
    // `Lines` will always report at least a single line.
    let line = lines.next().unwrap();
    let text = lossy_text(line);
    out.append(text.as_str());
    out.append("\n");
}

/// Write the line that marks a match on one row.
fn push_marker_line(out: &mut String, m: &LintMatch)
    ensures
        final(out)@ == old(out)@ + marker_line(m@),
{
    proof {
        reveal_strlit(" ");
        reveal_strlit("^");
    }
    let start_col = m.range.start_point.col;
    let end_col = m.range.end_point.col;
    let carets = if end_col > start_col {
        end_col - start_col
    } else {
        1
    };
    push_gutter(out, m);
    push_repeated(out, " ", start_col);
    push_repeated(out, "^", carets);
    out.append("\n");
}

/// Write the lines that show the rows of a match on several rows.
fn push_bracket_lines(out: &mut String, m: &LintMatch, lines: &mut Lines)
    requires
        old(lines).position() == Some(m.range.bytes.start as int),
        m.range.start_point.row <= m.range.end_point.row ==> lines_behind(
            old(lines).source(),
            m.range.bytes.start as int,
            (m.range.end_point.row - m.range.start_point.row) as nat,
        ),
    ensures
        final(out)@ == old(out)@ + bracket_lines(
            old(lines).source(),
            m.range.bytes.start as int,
            m.range.start_point.row as nat,
            row_count(m.range),
            true,
        ),
        final(lines).source() == old(lines).source(),
{
    let start_row = m.range.start_point.row;
    let end_row = m.range.end_point.row;
    if start_row > end_row {
        return;
    }
    let ghost code = lines.source();
    let ghost all = bracket_lines(
        code,
        m.range.bytes.start as int,
        start_row as nat,
        row_count(m.range),
        true,
    );
    let ghost mut idx = m.range.bytes.start as int;
    let mut row = start_row;
    loop
        invariant_except_break
            start_row <= row <= end_row,
            lines.source() == code,
            lines.position() == Some(idx),
            lines_behind(code, idx, (end_row - row) as nat),
            out@ + bracket_lines(
                code,
                idx,
                row as nat,
                (end_row - row + 1) as nat,
                row == start_row,
            ) == old(out)@ + all,
        ensures
            lines.source() == code,
            out@ == old(out)@ + all,
        decreases end_row - row,
    {
        let ghost before = out@;
        let ghost rest = bracket_lines(
            code,
            idx,
            row as nat,
            (end_row - row + 1) as nat,
            row == start_row,
        );
        push_decimal(out, row);
        out.append(" | ");
        out.append(" ");
        out.append(if row == start_row {
            "/"
        } else {
            "|"
        });
        out.append(" ");
        // There will always be another line available, given that the
        // code holds a line for each row of the range.
        let line = lines.next().unwrap();
        let text = lossy_text(line);
        out.append(text.as_str());
        out.append("\n");
        if row == end_row {
            assert(rest =~= bracket_line(code, idx, row as nat, row == start_row)) by {
                reveal_with_fuel(bracket_lines, 2);
            }
            break;
        }
        proof {
            let next = next_line_index(code, idx)->0;
            assert(rest == bracket_line(code, idx, row as nat, row == start_row)
                + bracket_lines(code, next, row as nat + 1, (end_row - row) as nat, false));
            assert(out@ + bracket_lines(code, next, row as nat + 1, (end_row - row) as nat, false)
                =~= before + rest);
            idx = next;
        }
        row = row + 1;
    }
}

/// Write the line that closes a snippet of several rows.
fn push_closing_line(out: &mut String, m: &LintMatch)
    ensures
        final(out)@ == old(out)@ + closing_line(m@),
{
    proof {
        reveal_strlit("_");
    }
    push_gutter(out, m);
    out.append(" |");
    push_repeated(out, "_", m.range.end_point.col);
    out.append("^");
    out.append("\n");
}

/// Check whether `code` holds `more` lines behind the line around
/// `idx`.
pub fn holds_lines_behind(code: &[u8], idx: usize, more: usize) -> (holds: bool)
    requires
        idx <= code@.len(),
    ensures
        holds == lines_behind(code@, idx as int, more as nat),
{
    let mut at = idx;
    let mut left = more;
    while left > 0
        invariant
            at <= code@.len(),
            lines_behind(code@, idx as int, more as nat) == lines_behind(
                code@,
                at as int,
                left as nat,
            ),
        decreases left,
    {
        let end = Lines::find_line_end(code, at);
        if end >= code.len() || end + 1 >= code.len() {
            return false;
        }
        at = end + 1;
        left = left - 1;
    }
    true
}

/// Check whether a range can be reported on `code`.
pub fn is_reportable(range: &Range, code: &[u8]) -> (fine: bool)
    ensures
        fine == reportable(*range, code@),
{
    if range.bytes.start >= range.bytes.end {
        true
    } else if range.bytes.start > code.len() {
        false
    } else if range.start_point.row > range.end_point.row {
        true
    } else {
        holds_lines_behind(
            code,
            range.bytes.start,
            range.end_point.row - range.start_point.row,
        )
    }
}

/// Report a lint match in terminal style.
///
/// - `m` is the match to create a report for
/// - `code` is the source code in question, as passed to
///   [`lint`][crate::lint()]
/// - `path` should be the path to the file to which `code` corresponds
///   and is used to enhance the generated report
///
/// # Example
/// ```text
/// warning: [probe-read] bpf_probe_read() is deprecated and replaced by
///          bpf_probe_user() and bpf_probe_kernel(); refer to bpf-helpers(7)
///   --> example.bpf.c:43:24
///    |
/// 43 |                         bpf_probe_read(event.comm, TASK_COMM_LEN, prev->comm);
///    |                         ^^^^^^^^^^^^^^
///    |
/// ```
pub fn report_terminal(m: &LintMatch, code: &[u8], path: &str) -> (report: String)
    requires
        reportable(m.range, code@),
    ensures
        report@ == report_text(m@, code@, path@),
{
    let mut report = String::new();
    push_header(&mut report, m);
    push_location(&mut report, m, path);

    if m.range.bytes.start >= m.range.bytes.end {
        return report;
    }

    let mut lines = Lines::new(code, m.range.bytes.start);
    push_blank_line(&mut report, m);

    if m.range.start_point.row == m.range.end_point.row {
        push_source_line(&mut report, m, &mut lines);
        push_marker_line(&mut report, m);
    } else {
        push_bracket_lines(&mut report, m, &mut lines);
        push_closing_line(&mut report, m);
    }

    push_blank_line(&mut report, m);
    report
}

} // verus!
