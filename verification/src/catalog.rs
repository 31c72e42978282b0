//! The lints shipped with the library.
//!
//! A lint is a name and a pattern, written as a tree-sitter query with
//! a single capture, the node to report, and a `message` property.

use vstd::prelude::*;
use vstd::utf8::is_ascii_chars;

use crate::text::chars_of;

verus! {

/// The pattern of the lint `perf-buff-map`.
pub const PERF_BUFF_MAP: &'static str = r#"
(
    (preproc_call_expression) @map
    (#match? @map "^__uint\\s*\\(\\s*type\\s*,\\s*BPF_MAP_TYPE_PERF_EVENT_ARRAY\\s*\\)$")
    (#set! "message" "Using ring buffers is preferred over perf buffers")
)
"#;

/// The pattern of the lint `probe-read`.
pub const PROBE_READ: &'static str = r#"
(call_expression
    function: (identifier) @function (#eq? @function "bpf_probe_read")
    (#set! "message" "bpf_probe_read() is deprecated and replaced by bpf_probe_user() and bpf_probe_kernel(); refer to bpf-helpers(7)")
)
"#;

/// The pattern of the lint `unstable-attach-point`.
pub const UNSTABLE_ATTACH_POINT: &'static str = r#"
(sec_specifier
    value: (string_literal) @probe (#match? @probe "^\"(kprobe|kretprobe|fentry|fexit)/.*\"$")
    (#set! "message" "kprobe/kretprobe/fentry/fexit are conceptually unstable and prone to changes between kernel versions; consider more stable attach points such as tracepoints or LSM hooks, if available")
)
"#;

/// The pattern of the lint `untyped-map-member`.
pub const UNTYPED_MAP_MEMBER: &'static str = r#"
(
    (preproc_call_expression
        arg2: (sizeof_expression)
    ) @uint
    (#set! "message" "__uint(a, sizeof(b)) does not contain potentially relevant type information, consider using __type(a, b) instead")
)
"#;

/// The names of the lints shipped with the library, in the order in
/// which they run.
pub open spec fn builtin_names() -> Seq<Seq<char>> {
    seq![
        "perf-buff-map"@,
        "probe-read"@,
        "unstable-attach-point"@,
        "untyped-map-member"@,
    ]
}

/// The lints shipped with the library, each as its name and its
/// pattern, in the order in which they run.
pub open spec fn builtin_definitions() -> Seq<(Seq<char>, Seq<char>)> {
    seq![
        ("perf-buff-map"@, PERF_BUFF_MAP@),
        ("probe-read"@, PROBE_READ@),
        ("unstable-attach-point"@, UNSTABLE_ATTACH_POINT@),
        ("untyped-map-member"@, UNTYPED_MAP_MEMBER@),
    ]
}

/// The name and the pattern of each definition, as sequences of
/// characters.
pub open spec fn definition_views(lints: Seq<(&str, &str)>) -> Seq<(Seq<char>, Seq<char>)> {
    lints.map_values(|lint: (&str, &str)| (lint.0@, lint.1@))
}

/// A slug is non-empty and made of lowercase ASCII letters and hyphens,
/// with no hyphen at its start or end.
pub open spec fn is_slug(name: Seq<char>) -> bool {
    &&& name.len() > 0
    &&& name.first() != '-'
    &&& name.last() != '-'
    &&& forall|i: int| 0 <= i < name.len() ==> is_slug_char(#[trigger] name[i])
}

/// A lowercase ASCII letter or a hyphen.
pub open spec fn is_slug_char(c: char) -> bool {
    ('a' <= c && c <= 'z') || c == '-'
}

/// Hand out the lints shipped with the library.
pub fn lint_definitions() -> (lints: Vec<(&'static str, &'static str)>)
    ensures
        definition_views(lints@) == builtin_definitions(),
{
    let mut lints: Vec<(&'static str, &'static str)> = Vec::new();
    lints.push(("perf-buff-map", PERF_BUFF_MAP));
    lints.push(("probe-read", PROBE_READ));
    lints.push(("unstable-attach-point", UNSTABLE_ATTACH_POINT));
    lints.push(("untyped-map-member", UNTYPED_MAP_MEMBER));
    lints
}

/// Check whether a name is a slug.
pub fn is_lower_ascii_slug(s: &str) -> (slug: bool)
    ensures
        slug == is_slug(s@),
{
    let name = chars_of(s);
    // Must be non-empty and neither start nor end with a hyphen.
    if name.len() == 0 || name[0] == '-' || name[name.len() - 1] == '-' {
        return false;
    }
    // Validate every character.
    let mut i: usize = 0;
    while i < name.len()
        invariant
            name@ == s@,
            i <= name@.len(),
            forall|j: int| 0 <= j < i ==> is_slug_char(#[trigger] name@[j]),
        decreases name@.len() - i,
    {
        let c = name[i];
        if !(('a' <= c && c <= 'z') || c == '-') {
            return false;
        }
        i = i + 1;
    }
    true
}

/// Whether the first `count` characters of a text are ASCII
/// characters.
pub open spec fn ascii_up_to(text: Seq<char>, count: nat) -> bool
    decreases count,
{
    count == 0 || ('\0' <= text[count - 1] <= '\u{7f}' && ascii_up_to(
        text,
        (count - 1) as nat,
    ))
}

/// A text is made of ASCII characters if all its characters, up to the
/// last, are ASCII characters.
pub proof fn lemma_ascii_up_to(text: Seq<char>, count: nat)
    requires
        count == text.len(),
        ascii_up_to(text, count),
    ensures
        is_ascii_chars(text),
{
    lemma_ascii_before(text, count);
}

/// The first characters of a text are ASCII characters if each of them
/// is.
pub proof fn lemma_ascii_before(text: Seq<char>, count: nat)
    requires
        ascii_up_to(text, count),
    ensures
        forall|i: int| 0 <= i < count ==> '\0' <= #[trigger] text[i] <= '\u{7f}',
    decreases count,
{
    if count > 0 {
        lemma_ascii_before(text, (count - 1) as nat);
    }
}

/// The pattern of the lint `perf-buff-map` is made of ASCII characters.
pub proof fn lemma_perf_buff_map_is_ascii()
    ensures
        is_ascii_chars(PERF_BUFF_MAP@),
{
    reveal_strlit(r#"
(
    (preproc_call_expression) @map
    (#match? @map "^__uint\\s*\\(\\s*type\\s*,\\s*BPF_MAP_TYPE_PERF_EVENT_ARRAY\\s*\\)$")
    (#set! "message" "Using ring buffers is preferred over perf buffers")
)
"#);
    assert(ascii_up_to(PERF_BUFF_MAP@, 30)) by {
        reveal_with_fuel(ascii_up_to, 31);
    }
    assert(ascii_up_to(PERF_BUFF_MAP@, 60)) by {
        reveal_with_fuel(ascii_up_to, 31);
    }
    assert(ascii_up_to(PERF_BUFF_MAP@, 90)) by {
        reveal_with_fuel(ascii_up_to, 31);
    }
    assert(ascii_up_to(PERF_BUFF_MAP@, 120)) by {
        reveal_with_fuel(ascii_up_to, 31);
    }
    assert(ascii_up_to(PERF_BUFF_MAP@, 150)) by {
        reveal_with_fuel(ascii_up_to, 31);
    }
    assert(ascii_up_to(PERF_BUFF_MAP@, 180)) by {
        reveal_with_fuel(ascii_up_to, 31);
    }
    assert(ascii_up_to(PERF_BUFF_MAP@, 204)) by {
        reveal_with_fuel(ascii_up_to, 25);
    }
    lemma_ascii_up_to(PERF_BUFF_MAP@, 204);
}

/// The pattern of the lint `probe-read` is made of ASCII characters.
pub proof fn lemma_probe_read_is_ascii()
    ensures
        is_ascii_chars(PROBE_READ@),
{
    reveal_strlit(r#"
(call_expression
    function: (identifier) @function (#eq? @function "bpf_probe_read")
    (#set! "message" "bpf_probe_read() is deprecated and replaced by bpf_probe_user() and bpf_probe_kernel(); refer to bpf-helpers(7)")
)
"#);
    assert(ascii_up_to(PROBE_READ@, 30)) by {
        reveal_with_fuel(ascii_up_to, 31);
    }
    assert(ascii_up_to(PROBE_READ@, 60)) by {
        reveal_with_fuel(ascii_up_to, 31);
    }
    assert(ascii_up_to(PROBE_READ@, 90)) by {
        reveal_with_fuel(ascii_up_to, 31);
    }
    assert(ascii_up_to(PROBE_READ@, 120)) by {
        reveal_with_fuel(ascii_up_to, 31);
    }
    assert(ascii_up_to(PROBE_READ@, 150)) by {
        reveal_with_fuel(ascii_up_to, 31);
    }
    assert(ascii_up_to(PROBE_READ@, 180)) by {
        reveal_with_fuel(ascii_up_to, 31);
    }
    assert(ascii_up_to(PROBE_READ@, 210)) by {
        reveal_with_fuel(ascii_up_to, 31);
    }
    assert(ascii_up_to(PROBE_READ@, 227)) by {
        reveal_with_fuel(ascii_up_to, 18);
    }
    lemma_ascii_up_to(PROBE_READ@, 227);
}

/// The pattern of the lint `unstable-attach-point` is made of ASCII characters.
pub proof fn lemma_unstable_attach_point_is_ascii()
    ensures
        is_ascii_chars(UNSTABLE_ATTACH_POINT@),
{
    reveal_strlit(r#"
(sec_specifier
    value: (string_literal) @probe (#match? @probe "^\"(kprobe|kretprobe|fentry|fexit)/.*\"$")
    (#set! "message" "kprobe/kretprobe/fentry/fexit are conceptually unstable and prone to changes between kernel versions; consider more stable attach points such as tracepoints or LSM hooks, if available")
)
"#);
    assert(ascii_up_to(UNSTABLE_ATTACH_POINT@, 30)) by {
        reveal_with_fuel(ascii_up_to, 31);
    }
    assert(ascii_up_to(UNSTABLE_ATTACH_POINT@, 60)) by {
        reveal_with_fuel(ascii_up_to, 31);
    }
    assert(ascii_up_to(UNSTABLE_ATTACH_POINT@, 90)) by {
        reveal_with_fuel(ascii_up_to, 31);
    }
    assert(ascii_up_to(UNSTABLE_ATTACH_POINT@, 120)) by {
        reveal_with_fuel(ascii_up_to, 31);
    }
    assert(ascii_up_to(UNSTABLE_ATTACH_POINT@, 150)) by {
        reveal_with_fuel(ascii_up_to, 31);
    }
    assert(ascii_up_to(UNSTABLE_ATTACH_POINT@, 180)) by {
        reveal_with_fuel(ascii_up_to, 31);
    }
    assert(ascii_up_to(UNSTABLE_ATTACH_POINT@, 210)) by {
        reveal_with_fuel(ascii_up_to, 31);
    }
    assert(ascii_up_to(UNSTABLE_ATTACH_POINT@, 240)) by {
        reveal_with_fuel(ascii_up_to, 31);
    }
    assert(ascii_up_to(UNSTABLE_ATTACH_POINT@, 270)) by {
        reveal_with_fuel(ascii_up_to, 31);
    }
    assert(ascii_up_to(UNSTABLE_ATTACH_POINT@, 300)) by {
        reveal_with_fuel(ascii_up_to, 31);
    }
    assert(ascii_up_to(UNSTABLE_ATTACH_POINT@, 321)) by {
        reveal_with_fuel(ascii_up_to, 22);
    }
    lemma_ascii_up_to(UNSTABLE_ATTACH_POINT@, 321);
}

/// The pattern of the lint `untyped-map-member` is made of ASCII characters.
pub proof fn lemma_untyped_map_member_is_ascii()
    ensures
        is_ascii_chars(UNTYPED_MAP_MEMBER@),
{
    reveal_strlit(r#"
(
    (preproc_call_expression
        arg2: (sizeof_expression)
    ) @uint
    (#set! "message" "__uint(a, sizeof(b)) does not contain potentially relevant type information, consider using __type(a, b) instead")
)
"#);
    assert(ascii_up_to(UNTYPED_MAP_MEMBER@, 30)) by {
        reveal_with_fuel(ascii_up_to, 31);
    }
    assert(ascii_up_to(UNTYPED_MAP_MEMBER@, 60)) by {
        reveal_with_fuel(ascii_up_to, 31);
    }
    assert(ascii_up_to(UNTYPED_MAP_MEMBER@, 90)) by {
        reveal_with_fuel(ascii_up_to, 31);
    }
    assert(ascii_up_to(UNTYPED_MAP_MEMBER@, 120)) by {
        reveal_with_fuel(ascii_up_to, 31);
    }
    assert(ascii_up_to(UNTYPED_MAP_MEMBER@, 150)) by {
        reveal_with_fuel(ascii_up_to, 31);
    }
    assert(ascii_up_to(UNTYPED_MAP_MEMBER@, 180)) by {
        reveal_with_fuel(ascii_up_to, 31);
    }
    assert(ascii_up_to(UNTYPED_MAP_MEMBER@, 210)) by {
        reveal_with_fuel(ascii_up_to, 31);
    }
    assert(ascii_up_to(UNTYPED_MAP_MEMBER@, 217)) by {
        reveal_with_fuel(ascii_up_to, 8);
    }
    lemma_ascii_up_to(UNTYPED_MAP_MEMBER@, 217);
}

/// The patterns of the lints shipped with the library are made of
/// ASCII characters.
pub proof fn law_builtin_patterns_are_ascii()
    ensures
        forall|i: int|
            0 <= i < builtin_definitions().len() ==> is_ascii_chars(
                (#[trigger] builtin_definitions()[i]).1,
            ),
{
    lemma_perf_buff_map_is_ascii();
    lemma_probe_read_is_ascii();
    lemma_unstable_attach_point_is_ascii();
    lemma_untyped_map_member_is_ascii();
}

/// The names of the lints shipped with the library are slugs, and no
/// two of them are the same.
pub proof fn law_builtin_names()
    ensures
        builtin_names() == builtin_definitions().map_values(
            |lint: (Seq<char>, Seq<char>)| lint.0,
        ),
        forall|i: int| 0 <= i < builtin_names().len() ==> is_slug(#[trigger] builtin_names()[i]),
        forall|i: int, j: int|
            0 <= i < j < builtin_names().len() ==> builtin_names()[i] != builtin_names()[j],
{
    reveal_strlit("perf-buff-map");
    reveal_strlit("probe-read");
    reveal_strlit("unstable-attach-point");
    reveal_strlit("untyped-map-member");
    assert(builtin_names() =~= builtin_definitions().map_values(
        |lint: (Seq<char>, Seq<char>)| lint.0,
    ));
    assert("probe-read"@.len() == 10);
    assert("unstable-attach-point"@.len() == 21);
    assert("untyped-map-member"@.len() == 18);
}

} // verus!
