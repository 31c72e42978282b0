//! Characters and text: decoding, white space and affixes.

use vstd::prelude::*;
use vstd::slice::slice_subrange;
use vstd::string::StrSliceExecFns;
use vstd::string::StringSliceAdditionalSpecFns;
use vstd::utf8::decode_utf8;
use vstd::utf8::encode_utf8_decode_utf8;
use vstd::utf8::valid_utf8;

verus! {

/// What `String::from_utf8_lossy` makes of `bytes`: their text, with
/// the replacement character in place of what is no UTF-8.
pub uninterp spec fn utf8_lossy(bytes: Seq<u8>) -> Seq<char>;

/// `core::str::from_utf8`: the bytes as a string, if they are UTF-8.
#[verifier::external_body]
fn str_from_utf8(bytes: &[u8]) -> (text: Option<&str>)
    ensures
        (text is Some) == valid_utf8(bytes@),
        text matches Some(s) ==> s.spec_bytes() == bytes@,
{
    core::str::from_utf8(bytes).ok()
}

/// `String::from_utf8_lossy`: the text of `bytes`, which is their
/// decoding where they are UTF-8.
#[verifier::external_body]
pub(crate) fn lossy_text(bytes: &[u8]) -> (text: String)
    ensures
        text@ == utf8_lossy(bytes@),
        valid_utf8(bytes@) ==> text@ == decode_utf8(bytes@),
{
    String::from_utf8_lossy(bytes).into_owned()
}

/// The text that `bytes` encode, if they are UTF-8.
pub fn utf8_text(bytes: &[u8]) -> (text: Option<&str>)
    ensures
        (text is Some) == valid_utf8(bytes@),
        text matches Some(s) ==> s@ == decode_utf8(bytes@),
{
    let text = str_from_utf8(bytes);
    proof {
        if let Some(s) = text {
            encode_utf8_decode_utf8(s@);
        }
    }
    text
}

/// The characters of a string, one by one.
pub fn chars_of(text: &str) -> (chars: Vec<char>)
    ensures
        chars@ == text@,
{
    let mut chars: Vec<char> = Vec::new();
    for c in it: text.chars()
        invariant
            chars@ == it.seq().take(it.index() as int),
            it.seq() == text@,
    {
        chars.push(c);
    }
    chars
}

/// White space, as Unicode's property `White_Space` defines it.
pub open spec fn is_whitespace(c: char) -> bool {
    let code = c as u32;
    ||| 0x09 <= code <= 0x0d
    ||| code == 0x20
    ||| code == 0x85
    ||| code == 0xa0
    ||| code == 0x1680
    ||| 0x2000 <= code <= 0x200a
    ||| code == 0x2028
    ||| code == 0x2029
    ||| code == 0x202f
    ||| code == 0x205f
    ||| code == 0x3000
}

/// `text` without the white space at its start.
pub open spec fn trimmed_start(text: Seq<char>) -> Seq<char>
    decreases text.len(),
{
    if text.len() > 0 && is_whitespace(text[0]) {
        trimmed_start(text.drop_first())
    } else {
        text
    }
}

/// `text` without the white space at its end.
pub open spec fn trimmed_end(text: Seq<char>) -> Seq<char>
    decreases text.len(),
{
    if text.len() > 0 && is_whitespace(text.last()) {
        trimmed_end(text.drop_last())
    } else {
        text
    }
}

/// `text` without the white space at either end.
pub open spec fn trimmed(text: Seq<char>) -> Seq<char> {
    trimmed_end(trimmed_start(text))
}

/// `text` without any repetition of `pattern` at its start.
pub open spec fn without_leading(text: Seq<char>, pattern: Seq<char>) -> Seq<char>
    decreases text.len(),
{
    if pattern.len() > 0 && pattern.is_prefix_of(text) {
        without_leading(text.skip(pattern.len() as int), pattern)
    } else {
        text
    }
}

/// `text` without any repetition of `pattern` at its end.
pub open spec fn without_trailing(text: Seq<char>, pattern: Seq<char>) -> Seq<char>
    decreases text.len(),
{
    if pattern.len() > 0 && pattern.is_suffix_of(text) {
        without_trailing(text.take(text.len() - pattern.len()), pattern)
    } else {
        text
    }
}

/// What follows `pattern` in `text`, if `text` starts with it.
pub open spec fn stripped_prefix(text: Seq<char>, pattern: Seq<char>) -> Option<Seq<char>> {
    if pattern.is_prefix_of(text) {
        Some(text.skip(pattern.len() as int))
    } else {
        None
    }
}

/// Whether `c` is white space.
pub fn is_white_space(c: char) -> (white: bool)
    ensures
        white == is_whitespace(c),
{
    let code: u32 = c as u32;
    (0x09 <= code && code <= 0x0d) || code == 0x20 || code == 0x85 || code == 0xa0 || code
        == 0x1680 || (0x2000 <= code && code <= 0x200a) || code == 0x2028 || code == 0x2029
        || code == 0x202f || code == 0x205f || code == 0x3000
}

/// Whether two texts hold the same characters.
pub fn same_text(a: &[char], b: &[char]) -> (same: bool)
    ensures
        same == (a@ == b@),
{
    if a.len() != b.len() {
        return false;
    }
    let mut i: usize = 0;
    while i < a.len()
        invariant
            a@.len() == b@.len(),
            i <= a@.len(),
            a@.take(i as int) == b@.take(i as int),
        decreases a@.len() - i,
    {
        if a[i] != b[i] {
            return false;
        }
        i = i + 1;
    }
    assert(a@ =~= a@.take(i as int));
    assert(b@ =~= b@.take(i as int));
    true
}

/// Whether `text` starts with `pattern`.
pub fn starts_with(text: &[char], pattern: &[char]) -> (found: bool)
    ensures
        found == pattern@.is_prefix_of(text@),
{
    if pattern.len() > text.len() {
        return false;
    }
    same_text(slice_subrange(text, 0, pattern.len()), pattern)
}

/// Whether `text` ends with `pattern`.
pub fn ends_with(text: &[char], pattern: &[char]) -> (found: bool)
    ensures
        found == pattern@.is_suffix_of(text@),
{
    if pattern.len() > text.len() {
        return false;
    }
    same_text(slice_subrange(text, text.len() - pattern.len(), text.len()), pattern)
}

/// Drop the white space at the start of `text`.
pub fn trim_start(text: &[char]) -> (rest: &[char])
    ensures
        rest@ == trimmed_start(text@),
{
    let mut start: usize = 0;
    assert(text@.skip(0) =~= text@);
    while start < text.len() && is_white_space(text[start])
        invariant
            start <= text@.len(),
            trimmed_start(text@) == trimmed_start(text@.skip(start as int)),
        decreases text@.len() - start,
    {
        assert(text@.skip(start as int).drop_first() =~= text@.skip(start + 1));
        start = start + 1;
    }
    slice_subrange(text, start, text.len())
}

/// Drop the white space at the end of `text`.
pub fn trim_end(text: &[char]) -> (rest: &[char])
    ensures
        rest@ == trimmed_end(text@),
{
    let mut end: usize = text.len();
    assert(text@.take(text@.len() as int) =~= text@);
    while end > 0 && is_white_space(text[end - 1])
        invariant
            end <= text@.len(),
            trimmed_end(text@) == trimmed_end(text@.take(end as int)),
        decreases end,
    {
        assert(text@.take(end as int).drop_last() =~= text@.take(end - 1));
        end = end - 1;
    }
    slice_subrange(text, 0, end)
}

/// Drop the white space at either end of `text`.
pub fn trim(text: &[char]) -> (rest: &[char])
    ensures
        rest@ == trimmed(text@),
{
    trim_end(trim_start(text))
}

/// Drop every repetition of `pattern` at the start of `text`.
pub fn trim_start_matches<'a>(text: &'a [char], pattern: &[char]) -> (rest: &'a [char])
    ensures
        rest@ == without_leading(text@, pattern@),
{
    if pattern.len() == 0 {
        return text;
    }
    let mut start: usize = 0;
    assert(text@.skip(0) =~= text@);
    while pattern.len() <= text.len() - start && starts_with(
        slice_subrange(text, start, text.len()),
        pattern,
    )
        invariant
            pattern@.len() > 0,
            start <= text@.len(),
            without_leading(text@, pattern@) == without_leading(
                text@.skip(start as int),
                pattern@,
            ),
        decreases text@.len() - start,
    {
        assert(text@.skip(start as int).skip(pattern@.len() as int) =~= text@.skip(
            start + pattern@.len(),
        ));
        start = start + pattern.len();
    }
    slice_subrange(text, start, text.len())
}

/// Drop every repetition of `pattern` at the end of `text`.
pub fn trim_end_matches<'a>(text: &'a [char], pattern: &[char]) -> (rest: &'a [char])
    ensures
        rest@ == without_trailing(text@, pattern@),
{
    if pattern.len() == 0 {
        return text;
    }
    let mut end: usize = text.len();
    assert(text@.take(text@.len() as int) =~= text@);
    while pattern.len() <= end && ends_with(slice_subrange(text, 0, end), pattern)
        invariant
            pattern@.len() > 0,
            end <= text@.len(),
            without_trailing(text@, pattern@) == without_trailing(
                text@.take(end as int),
                pattern@,
            ),
        decreases end,
    {
        assert(text@.take(end as int).take(end - pattern@.len()) =~= text@.take(
            end - pattern@.len(),
        ));
        end = end - pattern.len();
    }
    slice_subrange(text, 0, end)
}

/// What is left of a text without the white space at its start is the
/// end of that text.
pub proof fn lemma_trimmed_start_is_end(text: Seq<char>)
    ensures
        trimmed_start(text).len() <= text.len(),
        trimmed_start(text) == text.skip(text.len() - trimmed_start(text).len()),
    decreases text.len(),
{
    if text.len() > 0 && is_whitespace(text[0]) {
        let rest = text.drop_first();
        lemma_trimmed_start_is_end(rest);
        assert(rest.skip(rest.len() - trimmed_start(rest).len()) =~= text.skip(
            text.len() - trimmed_start(rest).len(),
        ));
    } else {
        assert(text.skip(0) =~= text);
    }
}

/// What is left of a text without the white space at its end is the
/// start of that text.
pub proof fn lemma_trimmed_end_is_start(text: Seq<char>)
    ensures
        trimmed_end(text).len() <= text.len(),
        trimmed_end(text) == text.take(trimmed_end(text).len() as int),
    decreases text.len(),
{
    if text.len() > 0 && is_whitespace(text.last()) {
        let rest = text.drop_last();
        lemma_trimmed_end_is_start(rest);
        assert(rest.take(trimmed_end(rest).len() as int) =~= text.take(
            trimmed_end(rest).len() as int,
        ));
    } else {
        assert(text.take(text.len() as int) =~= text);
    }
}

/// What is left of a text without the white space at its start does
/// not start with white space, and white space is all that was left
/// out.
pub proof fn lemma_trimmed_start_cuts(text: Seq<char>)
    ensures
        trimmed_start(text).len() > 0 ==> !is_whitespace(trimmed_start(text).first()),
        forall|i: int|
            0 <= i < text.len() - trimmed_start(text).len() ==> is_whitespace(#[trigger] text[i]),
    decreases text.len(),
{
    if text.len() > 0 && is_whitespace(text[0]) {
        let rest = text.drop_first();
        lemma_trimmed_start_cuts(rest);
        assert forall|i: int| 0 <= i < text.len() - trimmed_start(text).len() implies is_whitespace(
            #[trigger] text[i],
        ) by {
            if i > 0 {
                assert(text[i] == rest[i - 1]);
            }
        }
    }
}

/// What is left of a text without the white space at its end does not
/// end with white space, and white space is all that was left out.
pub proof fn lemma_trimmed_end_cuts(text: Seq<char>)
    ensures
        trimmed_end(text).len() > 0 ==> !is_whitespace(trimmed_end(text).last()),
        forall|i: int|
            trimmed_end(text).len() <= i < text.len() ==> is_whitespace(#[trigger] text[i]),
    decreases text.len(),
{
    if text.len() > 0 && is_whitespace(text.last()) {
        let rest = text.drop_last();
        lemma_trimmed_end_cuts(rest);
        assert forall|i: int| trimmed_end(text).len() <= i < text.len() implies is_whitespace(
            #[trigger] text[i],
        ) by {
            if i < text.len() - 1 {
                assert(text[i] == rest[i]);
            }
        }
    }
}

/// Trimming cuts a text down to the part of it that neither starts nor
/// ends with white space, and cuts nothing but white space.
pub proof fn law_trimmed(text: Seq<char>)
    ensures
        trimmed(text).len() > 0 ==> !is_whitespace(trimmed(text).first()) && !is_whitespace(
            trimmed(text).last(),
        ),
        exists|start: int, end: int|
            {
                &&& 0 <= start <= end <= text.len()
                &&& #[trigger] text.subrange(start, end) == trimmed(text)
                &&& forall|i: int| 0 <= i < start ==> is_whitespace(#[trigger] text[i])
                &&& forall|i: int| end <= i < text.len() ==> is_whitespace(#[trigger] text[i])
            },
{
    let led = trimmed_start(text);
    let kept = trimmed_end(led);
    let start = text.len() - led.len();
    let end = start + kept.len();
    lemma_trimmed_start_is_end(text);
    lemma_trimmed_start_cuts(text);
    lemma_trimmed_end_is_start(led);
    lemma_trimmed_end_cuts(led);
    assert(text.subrange(start, end) =~= kept);
    assert forall|i: int| end <= i < text.len() implies is_whitespace(#[trigger] text[i]) by {
        assert(text[i] == led[i - start]);
    }
    if kept.len() > 0 {
        assert(kept.first() == led.first());
    }
}

/// Drop the white space at either end of a string.
pub fn trim_str(text: &str) -> (rest: &str)
    ensures
        rest@ == trimmed(text@),
{
    let chars = chars_of(text);
    let led = trim_start(chars.as_slice());
    proof {
        lemma_trimmed_start_is_end(text@);
    }
    let start = chars.len() - led.len();
    let kept = trim_end(led);
    proof {
        lemma_trimmed_end_is_start(led@);
        assert(kept@ =~= text@.subrange(start as int, start + kept@.len()));
    }
    text.substring_char(start, start + kept.len())
}

/// Hand out what follows `pattern` in `text`, if `text` starts with it.
pub fn strip_prefix<'a>(text: &'a [char], pattern: &[char]) -> (rest: Option<&'a [char]>)
    ensures
        match rest {
            Some(r) => stripped_prefix(text@, pattern@) == Some(r@),
            None => stripped_prefix(text@, pattern@) is None,
        },
{
    if starts_with(text, pattern) {
        Some(slice_subrange(text, pattern.len(), text.len()))
    } else {
        None
    }
}

} // verus!
