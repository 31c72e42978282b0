//! Tests of the handling of text and of names.

use bpflint::builtin_lints;
use bpflint::catalog::lint_definitions;
use bpflint::file_list_entry;
use bpflint::file_list_path;
use bpflint::has_bpf_c_ext;
use bpflint::is_lower_ascii_slug;
use bpflint::lint::same_str;
use bpflint::text::chars_of;
use bpflint::text::ends_with;
use bpflint::text::is_white_space;
use bpflint::text::same_text;
use bpflint::text::starts_with;
use bpflint::text::strip_prefix;
use bpflint::text::trim;
use bpflint::text::trim_end;
use bpflint::text::trim_end_matches;
use bpflint::text::trim_start;
use bpflint::text::trim_start_matches;
use bpflint::text::trim_str;
use bpflint::text::utf8_text;
use bpflint::Lines;

fn chars(text: &str) -> Vec<char> {
    text.chars().collect()
}

fn text(chars: &[char]) -> String {
    chars.iter().collect()
}

/// A string is taken apart into its characters.
#[test]
fn characters_of_strings() {
    assert_eq!(chars_of(""), chars(""));
    assert_eq!(chars_of("abc"), ['a', 'b', 'c']);
    assert_eq!(chars_of("na\u{ef}ve \u{1f980}"), chars("na\u{ef}ve \u{1f980}"));
}

/// Bytes are text if they are UTF-8.
#[test]
fn text_of_bytes() {
    assert_eq!(utf8_text(b""), Some(""));
    assert_eq!(utf8_text(b"abc"), Some("abc"));
    assert_eq!(utf8_text("gr\u{fc}n".as_bytes()), Some("gr\u{fc}n"));
    assert_eq!(utf8_text(b"ab\xff"), None);
    assert_eq!(utf8_text(b"\xc3"), None);
    assert_eq!(utf8_text(b"\xed\xa0\x80"), None);
}

/// White space is what Unicode says it is.
#[test]
fn white_space() {
    for code in 0..=0x3001u32 {
        if let Some(c) = char::from_u32(code) {
            assert_eq!(is_white_space(c), c.is_whitespace(), "{code:x}");
        }
    }
    assert!(!is_white_space('\u{feff}'));
    assert!(!is_white_space('\u{200b}'));
    assert!(!is_white_space(char::MAX));
}

/// Texts are the same if they hold the same characters.
#[test]
fn same_texts() {
    assert!(same_text(&chars(""), &chars("")));
    assert!(same_text(&chars("abc"), &chars("abc")));
    assert!(!same_text(&chars("abc"), &chars("abd")));
    assert!(!same_text(&chars("abc"), &chars("ab")));
    assert!(!same_text(&chars(""), &chars("a")));
    assert!(same_str("comment", "comment"));
    assert!(!same_str("comment", "comments"));
    assert!(!same_str("comment", "Comment"));
}

/// Prefixes and suffixes are found where they are.
#[test]
fn affixes() {
    assert!(starts_with(&chars("abc"), &chars("")));
    assert!(starts_with(&chars("abc"), &chars("ab")));
    assert!(starts_with(&chars("abc"), &chars("abc")));
    assert!(!starts_with(&chars("abc"), &chars("abcd")));
    assert!(!starts_with(&chars("abc"), &chars("bc")));
    assert!(ends_with(&chars("abc"), &chars("")));
    assert!(ends_with(&chars("abc"), &chars("bc")));
    assert!(ends_with(&chars("abc"), &chars("abc")));
    assert!(!ends_with(&chars("abc"), &chars("xabc")));
    assert!(!ends_with(&chars("abc"), &chars("ab")));

    assert_eq!(strip_prefix(&chars("abc"), &chars("ab")), Some(chars("c").as_slice()));
    assert_eq!(strip_prefix(&chars("abc"), &chars("")), Some(chars("abc").as_slice()));
    assert_eq!(strip_prefix(&chars("abc"), &chars("abc")), Some(chars("").as_slice()));
    assert_eq!(strip_prefix(&chars("abc"), &chars("b")), None);
}

/// Trimming agrees with what strings do.
#[test]
fn trimming() {
    let samples = [
        "",
        " ",
        "abc",
        "  abc",
        "abc \t\n",
        " \u{a0}a b\u{2028} ",
        "\u{3000}\u{1680}x\u{85}",
        "\r\n\u{b}\u{c}",
        "\u{200b} x \u{feff}",
    ];
    for sample in samples {
        let all = chars(sample);
        assert_eq!(text(trim_start(&all)), sample.trim_start(), "{sample:?}");
        assert_eq!(text(trim_end(&all)), sample.trim_end(), "{sample:?}");
        assert_eq!(text(trim(&all)), sample.trim(), "{sample:?}");
    }
}

/// Repetitions of a pattern are dropped as strings drop them.
#[test]
fn trimming_matches() {
    let samples = ["", "/", "//", "///", "////x//", "/*/*x*/*/", "x", "*/", "*/*/", "/*/"];
    let patterns = ["//", "/*", "*/", "/", ""];
    for sample in samples {
        for pattern in patterns {
            let all = chars(sample);
            let wanted = chars(pattern);
            if pattern.is_empty() {
                assert_eq!(text(trim_start_matches(&all, &wanted)), sample);
                assert_eq!(text(trim_end_matches(&all, &wanted)), sample);
            } else {
                assert_eq!(
                    text(trim_start_matches(&all, &wanted)),
                    sample.trim_start_matches(pattern),
                    "{sample:?} {pattern:?}"
                );
                assert_eq!(
                    text(trim_end_matches(&all, &wanted)),
                    sample.trim_end_matches(pattern),
                    "{sample:?} {pattern:?}"
                );
            }
        }
    }
}

/// Slugs are made of lowercase letters and hyphens between them.
#[test]
fn slugs() {
    assert!(is_lower_ascii_slug("a"));
    assert!(is_lower_ascii_slug("a--b"));
    assert!(is_lower_ascii_slug("all"));
    assert!(!is_lower_ascii_slug("a b"));
    assert!(!is_lower_ascii_slug("a1"));
    assert!(!is_lower_ascii_slug("a.b"));
    assert!(!is_lower_ascii_slug("--"));
    assert!(!is_lower_ascii_slug("\u{e4}"));
}

/// The lints shipped with the library have their names, each once.
#[test]
fn builtin_lints_listed() {
    let names: Vec<String> = builtin_lints().into_iter().map(|lint| lint.name).collect();
    assert_eq!(
        names,
        ["perf-buff-map", "probe-read", "unstable-attach-point", "untyped-map-member"]
    );
    let definitions = lint_definitions();
    assert_eq!(definitions.len(), names.len());
    for ((name, source), listed) in definitions.iter().zip(names.iter()) {
        assert_eq!(name, listed);
        assert!(source.contains("(#set! \"message\""));
    }
}

/// The extension is looked for at the very end of the name.
#[test]
fn file_extensions() {
    assert!(has_bpf_c_ext(".bpf.c"));
    assert!(has_bpf_c_ext("a.bpf.c"));
    assert!(!has_bpf_c_ext(""));
    assert!(!has_bpf_c_ext("bpf.c"));
    assert!(!has_bpf_c_ext("a.bpf.c "));
    assert!(!has_bpf_c_ext("a.BPF.C"));
    assert!(!has_bpf_c_ext("a.bpf.cc"));
    assert!(!has_bpf_c_ext("a.bpf.c/b"));
}

/// A leading `@` names a list of source files.
#[test]
fn file_lists() {
    assert_eq!(file_list_path("@list.txt"), Some("list.txt"));
    assert_eq!(file_list_path("@"), Some(""));
    assert_eq!(file_list_path("@@a"), Some("@a"));
    assert_eq!(file_list_path("@\u{e4}/b c"), Some("\u{e4}/b c"));
    assert_eq!(file_list_path("list.txt"), None);
    assert_eq!(file_list_path("a@b"), None);
    assert_eq!(file_list_path(" @a"), None);
    assert_eq!(file_list_path(""), None);
}

/// A line of a list holds a path unless it is blank.
#[test]
fn file_list_entries() {
    assert_eq!(file_list_entry("1st"), Some("1st"));
    assert_eq!(file_list_entry("  a b.bpf.c\t\r"), Some("a b.bpf.c"));
    assert_eq!(file_list_entry("\u{a0}gr\u{fc}n.c\u{3000}"), Some("gr\u{fc}n.c"));
    assert_eq!(file_list_entry(""), None);
    assert_eq!(file_list_entry(" \t "), None);
    for line in ["x", " x", "x ", "\u{2003}x y\u{2003}", "", "   "] {
        assert_eq!(trim_str(line), line.trim());
    }
}

/// Lines are handed out one by one, empty ones too.
#[test]
fn lines_one_by_one() {
    let mut lines = Lines::new(b"a\n\nb\n", 0);
    assert_eq!(lines.next(), Some(b"a".as_slice()));
    assert_eq!(lines.next(), Some(b"".as_slice()));
    assert_eq!(lines.next(), Some(b"b".as_slice()));
    assert_eq!(lines.next(), None);
    assert_eq!(lines.next(), None);

    let mut lines = Lines::new(b"\n", 0);
    assert_eq!(lines.next(), Some(b"".as_slice()));
    assert_eq!(lines.next(), None);

    let mut lines = Lines::new(b"\n", 1);
    assert_eq!(lines.next(), Some(b"".as_slice()));
    assert_eq!(lines.next(), None);

    let mut lines = Lines::new(b"ab\ncd", 5);
    assert_eq!(lines.next(), Some(b"cd".as_slice()));
    assert_eq!(lines.next(), None);

    let mut lines = Lines::new(b"ab\ncd", 2);
    assert_eq!(lines.next(), Some(b"ab".as_slice()));
    assert_eq!(lines.next(), Some(b"cd".as_slice()));
    assert_eq!(lines.next(), None);
}
