//! Directives in code comments that disable lints.
//!
//! A comment is a directive if its body, that is its text without the
//! comment delimiters and the white space around, starts with
//! `bpflint:` and goes on, after optional white space, with `disable=`
//! and the name of a lint, or `all`.

use vstd::prelude::*;
use vstd::utf8::decode_utf8;
use vstd::utf8::valid_utf8;

use crate::catalog::is_slug;
use crate::catalog::is_slug_char;
use crate::text::chars_of;
use crate::text::is_whitespace;
use crate::text::same_text;
use crate::text::strip_prefix;
use crate::text::stripped_prefix;
use crate::text::trim;
use crate::text::trim_end_matches;
use crate::text::trim_start_matches;
use crate::text::trimmed;
use crate::text::trimmed_end;
use crate::text::trimmed_start;
use crate::text::utf8_text;
use crate::text::without_leading;
use crate::text::without_trailing;

verus! {

/// The body of a comment: its text without the delimiters of line and
/// block comments and without the white space around.
pub open spec fn comment_body(comment: Seq<char>) -> Seq<char> {
    trimmed(
        without_trailing(without_leading(without_leading(comment, "//"@), "/*"@), "*/"@),
    )
}

/// What a comment asks to disable: the text behind `disable=`, if the
/// comment is a directive at all.
pub open spec fn directive_target(comment: Seq<char>) -> Option<Seq<char>> {
    match stripped_prefix(comment_body(comment), "bpflint:"@) {
        Some(directive) => stripped_prefix(trimmed(directive), "disable="@),
        None => None,
    }
}

/// Whether a comment is a directive that disables the lint `lint_name`:
/// it names that very lint, or `all`.
pub open spec fn directive_covers(comment: Seq<char>, lint_name: Seq<char>) -> bool {
    match directive_target(comment) {
        Some(target) => target == "all"@ || target == lint_name,
        None => false,
    }
}

/// Whether the bytes of a comment are a directive that disables the
/// lint `lint_name`. Bytes that are no UTF-8 are no directive.
pub open spec fn comment_covers(comment: Seq<u8>, lint_name: Seq<char>) -> bool {
    valid_utf8(comment) && directive_covers(decode_utf8(comment), lint_name)
}

/// A block comment around `inner`.
pub open spec fn block_comment(inner: Seq<char>) -> Seq<char> {
    "/* "@ + inner + " */"@
}

/// A line comment that holds `inner`.
pub open spec fn line_comment(inner: Seq<char>) -> Seq<char> {
    "// "@ + inner
}

/// The directive that asks to disable `target`.
pub open spec fn directive(target: Seq<char>) -> Seq<char> {
    "bpflint: disable="@ + target
}

/// Whether trimming leaves a text as it is: the text has no white space
/// at its start or end.
pub open spec fn is_trim(text: Seq<char>) -> bool {
    text.len() > 0 && !is_whitespace(text.first()) && !is_whitespace(text.last())
}

/// A comment is a directive that disables a lint if and only if its
/// body starts with `bpflint:` and what follows is, white space aside,
/// `disable=` and then `all` or the name of that very lint.
pub proof fn law_directive_shape(comment: Seq<char>, lint_name: Seq<char>)
    ensures
        directive_covers(comment, lint_name) <==> exists|rest: Seq<char>|
            comment_body(comment) == "bpflint:"@ + rest && (#[trigger] trimmed(rest) == "disable="@
                + "all"@ || trimmed(rest) == "disable="@ + lint_name),
{
    let body = comment_body(comment);
    let tool = "bpflint:"@;
    let keyword = "disable="@;
    if directive_covers(comment, lint_name) {
        let rest = body.skip(tool.len() as int);
        let target = trimmed(rest).skip(keyword.len() as int);
        assert(body =~= tool + rest);
        assert(trimmed(rest) =~= keyword + target);
    }
    if exists|rest: Seq<char>|
        body == tool + rest && (#[trigger] trimmed(rest) == keyword + "all"@ || trimmed(rest)
            == keyword + lint_name) {
        let rest = choose|rest: Seq<char>|
            body == tool + rest && (#[trigger] trimmed(rest) == keyword + "all"@ || trimmed(rest)
                == keyword + lint_name);
        assert(body.skip(tool.len() as int) =~= rest);
        if trimmed(rest) == keyword + "all"@ {
            assert((keyword + "all"@).skip(keyword.len() as int) =~= "all"@);
        } else {
            assert((keyword + lint_name).skip(keyword.len() as int) =~= lint_name);
        }
    }
}

/// Trimming leaves a text as it is that has no white space at its
/// start or end, and takes a single blank away from either end.
pub proof fn lemma_trimmed(text: Seq<char>)
    requires
        is_trim(text),
    ensures
        trimmed(text) == text,
        trimmed(" "@ + text) == text,
        trimmed(" "@ + text + " "@) == text,
{
    reveal_strlit(" ");
    reveal_with_fuel(trimmed_start, 2);
    reveal_with_fuel(trimmed_end, 2);
}

/// The body of a block comment around a text without white space at
/// its start or end is that text.
pub proof fn lemma_block_comment_body(inner: Seq<char>)
    requires
        is_trim(inner),
    ensures
        comment_body(block_comment(inner)) == inner,
{
    reveal_strlit("/* ");
    reveal_strlit(" */");
    reveal_strlit("//");
    reveal_strlit("/*");
    reveal_strlit("*/");
    reveal_strlit(" ");
    reveal_with_fuel(without_leading, 2);
    reveal_with_fuel(without_trailing, 2);
    let comment = block_comment(inner);
    let opened = " "@ + inner + " */"@;
    let closed = " "@ + inner + " "@;
    assert(comment.subrange(0, 2)[1] == '*');
    assert(opened.subrange(0, 2)[0] == ' ');
    assert(!"/*"@.is_prefix_of(opened));
    assert(without_leading(without_leading(comment, "//"@), "/*"@) == opened);
    assert(closed.subrange(closed.len() - 2, closed.len() as int)[1] == ' ');
    assert(!"*/"@.is_suffix_of(closed));
    assert(without_trailing(opened, "*/"@) == closed);
    lemma_trimmed(inner);
}

/// The body of a line comment that holds a text without white space at
/// its start or end, and without a slash at its end, is that text.
pub proof fn lemma_line_comment_body(inner: Seq<char>)
    requires
        is_trim(inner),
        inner.last() != '/',
    ensures
        comment_body(line_comment(inner)) == inner,
{
    reveal_strlit("// ");
    reveal_strlit("//");
    reveal_strlit("/*");
    reveal_strlit("*/");
    reveal_strlit(" ");
    reveal_with_fuel(without_leading, 2);
    reveal_with_fuel(without_trailing, 2);
    let comment = line_comment(inner);
    let opened = " "@ + inner;
    assert(opened.subrange(0, 2)[0] == ' ');
    assert(!"//"@.is_prefix_of(opened));
    assert(without_leading(comment, "//"@) == opened);
    assert(opened.subrange(opened.len() - 2, opened.len() as int)[1] == inner.last());
    lemma_trimmed(inner);
}

/// The directive that asks to disable a target is understood to ask
/// for just that, if the target is a slug.
pub proof fn lemma_directive_target(target: Seq<char>)
    requires
        is_slug(target),
    ensures
        is_trim(directive(target)),
        directive(target).last() != '/',
        stripped_prefix(directive(target), "bpflint:"@) == Some(" "@ + ("disable="@ + target)),
        trimmed(" "@ + ("disable="@ + target)) == "disable="@ + target,
        stripped_prefix("disable="@ + target, "disable="@) == Some(target),
{
    reveal_strlit("bpflint: disable=");
    reveal_strlit("bpflint:");
    reveal_strlit("disable=");
    reveal_strlit(" ");
    lemma_trimmed("disable="@ + target);
}

/// A block comment or a line comment that holds nothing but the
/// directive to disable a target, a slug, is understood to ask for
/// just that: it disables the lint of that name and no other or, if
/// the target is `all`, every lint.
pub proof fn law_directive_disables(target: Seq<char>, lint_name: Seq<char>)
    requires
        is_slug(target),
    ensures
        directive_target(block_comment(directive(target))) == Some(target),
        directive_target(line_comment(directive(target))) == Some(target),
        directive_covers(block_comment(directive(target)), lint_name) <==> target == "all"@
            || target == lint_name,
        directive_covers(line_comment(directive(target)), lint_name) <==> target == "all"@
            || target == lint_name,
{
    lemma_directive_target(target);
    lemma_block_comment_body(directive(target));
    lemma_line_comment_body(directive(target));
}

/// A comment that spells the directive differently disables nothing:
/// neither one that says `disabled=` in place of `disable=`, nor one
/// that lacks the `bpflint:` before it.
pub proof fn law_misspelled_directive(target: Seq<char>, lint_name: Seq<char>)
    requires
        is_slug(target),
    ensures
        !directive_covers(block_comment("bpflint: disabled="@ + target), lint_name),
        !directive_covers(line_comment("bpflint: disabled="@ + target), lint_name),
        !directive_covers(block_comment("disable="@ + target), lint_name),
        !directive_covers(line_comment("disable="@ + target), lint_name),
        !directive_covers(line_comment("bpflint: "@ + target), lint_name),
{
    reveal_strlit("bpflint: disabled=");
    reveal_strlit("bpflint: ");
    reveal_strlit("bpflint:");
    reveal_strlit("disabled=");
    reveal_strlit("disable=");
    reveal_strlit(" ");

    let other = "bpflint: disabled="@ + target;
    let keyed = "disabled="@ + target;
    lemma_block_comment_body(other);
    lemma_line_comment_body(other);
    assert(other.skip(8) =~= " "@ + keyed);
    lemma_trimmed(keyed);
    assert(keyed.subrange(0, 8)[7] == 'd');

    let bare = "disable="@ + target;
    lemma_block_comment_body(bare);
    lemma_line_comment_body(bare);
    assert(bare.subrange(0, 8)[0] == 'd');

    let unkeyed = "bpflint: "@ + target;
    lemma_line_comment_body(unkeyed);
    assert(unkeyed.skip(8) =~= " "@ + target);
    lemma_trimmed(target);
}

/// Find what a comment asks to disable.
pub fn find_target(comment: &[char]) -> (target: Option<&[char]>)
    ensures
        match target {
            Some(t) => directive_target(comment@) == Some(t@),
            None => directive_target(comment@) is None,
        },
{
    let line = chars_of("//");
    let open = chars_of("/*");
    let close = chars_of("*/");
    let tool = chars_of("bpflint:");
    let keyword = chars_of("disable=");

    // The comment still holds the actual comment syntax.
    let body = trim_start_matches(comment, line.as_slice());
    let body = trim_start_matches(body, open.as_slice());
    let body = trim_end_matches(body, close.as_slice());
    let body = trim(body);

    match strip_prefix(body, tool.as_slice()) {
        Some(directive) => strip_prefix(trim(directive), keyword.as_slice()),
        None => None,
    }
}

/// Check whether a comment, given by its characters, disables the lint
/// `lint_name`.
pub fn directive_disables(comment: &[char], lint_name: &[char]) -> (disabled: bool)
    ensures
        disabled == directive_covers(comment@, lint_name@),
{
    let all = chars_of("all");
    match find_target(comment) {
        Some(target) => same_text(target, all.as_slice()) || same_text(target, lint_name),
        None => false,
    }
}

/// Check whether a comment, given by its bytes, disables the lint
/// `lint_name`.
pub fn comment_disables(comment: &[u8], lint_name: &str) -> (disabled: bool)
    ensures
        disabled == comment_covers(comment@, lint_name@),
{
    // If it's not valid UTF-8 it can't be a comment for us to consider.
    match utf8_text(comment) {
        Some(text) => {
            let text = chars_of(text);
            let lint_name = chars_of(lint_name);
            directive_disables(text.as_slice(), lint_name.as_slice())
        },
        None => false,
    }
}

} // verus!
