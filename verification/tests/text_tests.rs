use jabba_shim::text::{
    chars_of, contains, eq_ignore_ascii_case, is_whitespace, starts_with, to_ascii_lowercase,
    trim, trim_end_matches, trim_start, trim_start_matches,
};

fn v(s: &str) -> Vec<char> {
    s.chars().collect()
}

const SAMPLES: &[&str] = &[
    "",
    "   ",
    "abc",
    "  abc",
    "abc  ",
    " \t a b c \r\n",
    "\u{3000}x\u{a0}",
    "\u{85}\u{2028}y z\u{2029}\u{202f}",
    "\u{200b}zero-width\u{200b}",
    "\u{1680}ogham\u{205f}",
    "AbC-\u{c9}-Zz",
];

#[test]
fn whitespace_agrees_with_std() {
    for c in (0u32..0x3100).filter_map(char::from_u32) {
        assert_eq!(is_whitespace(c), c.is_whitespace(), "{c:?}");
    }
}

#[test]
fn trim_agrees_with_std() {
    for s in SAMPLES {
        assert_eq!(trim(s), s.trim());
        assert_eq!(trim_start(s), s.trim_start());
    }
}

#[test]
fn trim_examples() {
    assert_eq!(trim("  a b \t\n"), "a b");
    assert_eq!(trim("\u{3000}x\u{a0}"), "x");
    assert_eq!(trim("   "), "");
    assert_eq!(trim_start("  a "), "a ");
}

#[test]
fn ascii_lowercase_agrees_with_std() {
    for s in SAMPLES {
        assert_eq!(to_ascii_lowercase(s), s.to_ascii_lowercase());
    }
    assert_eq!(to_ascii_lowercase("AbC-\u{c9}"), "abc-\u{c9}");
}

#[test]
fn prefix_and_substring() {
    assert!(starts_with(&v("17.0.1"), &v("17")));
    assert!(!starts_with(&v("1.17"), &v("17")));
    assert!(starts_with(&v("x"), &v("")));
    assert!(!starts_with(&v("1"), &v("17")));
    assert!(contains(&v("1.17"), &v("17")));
    assert!(contains(&v("abc"), &v("")));
    assert!(contains(&v(""), &v("")));
    assert!(!contains(&v("abc"), &v("abd")));
    assert!(contains(&v("aab"), &v("ab")));
}

#[test]
fn ignore_ascii_case() {
    assert!(eq_ignore_ascii_case(&v("BA7816bf"), &v("ba7816BF")));
    assert!(!eq_ignore_ascii_case(&v("ab"), &v("abc")));
    assert!(!eq_ignore_ascii_case(&v("\u{c9}"), &v("\u{e9}")));
    assert_eq!("\u{c9}".eq_ignore_ascii_case("\u{e9}"), false);
}

#[test]
fn pattern_trimming_agrees_with_std() {
    let cases = [
        ("https://github.com/a/b//", "/"),
        ("x.git.git", ".git"),
        ("aaa", "aa"),
        ("", "/"),
        ("vvv1", "v"),
    ];
    for (s, p) in cases {
        let end: String = trim_end_matches(&v(s), &v(p)).into_iter().collect();
        assert_eq!(end, s.trim_end_matches(p), "{s} {p}");
        let start: String = trim_start_matches(&v(s), &v(p)).into_iter().collect();
        assert_eq!(start, s.trim_start_matches(p), "{s} {p}");
    }
}

#[test]
fn chars_of_keeps_every_character() {
    assert_eq!(chars_of("a\u{e9}\u{1f600}"), vec!['a', '\u{e9}', '\u{1f600}']);
}
