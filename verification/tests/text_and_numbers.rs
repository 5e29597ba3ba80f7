use lycan::numparse::{parse_i32_chars, parse_u64_chars};
use lycan::text::{
    chars_of, contains_chars, is_whitespace, lex_less, next_word, remove_all_chars,
    starts_with_chars, strip_trailing_chars, trim_str,
};

fn cs(s: &str) -> Vec<char> {
    s.chars().collect()
}

#[test]
fn chars_of_keeps_order() {
    assert_eq!(chars_of("añb"), vec!['a', 'ñ', 'b']);
}

#[test]
fn trim_removes_unicode_whitespace() {
    assert_eq!(trim_str("  hello world\t\n"), "hello world");
    assert_eq!(trim_str("\u{3000}x\u{a0}"), "x");
    assert_eq!(trim_str("   "), "");
    assert_eq!(trim_str(""), "");
}

#[test]
fn whitespace_matches_std() {
    for c in ['\t', '\n', ' ', '\u{85}', '\u{a0}', '\u{2009}', '\u{3000}', 'a', '0', '\u{200b}'] {
        assert_eq!(is_whitespace(c), c.is_whitespace(), "{:?}", c);
    }
}

#[test]
fn next_word_finds_words() {
    let v = cs("  ab  cd ");
    assert_eq!(next_word(&v, 0), (2, 4));
    assert_eq!(next_word(&v, 4), (6, 8));
    assert_eq!(next_word(&v, 8), (9, 9));
}

#[test]
fn contains_and_prefix() {
    assert!(contains_chars(&cs("youtube"), &cs("tube")));
    assert!(!contains_chars(&cs("youtube"), &cs("tubes")));
    assert!(contains_chars(&cs("abc"), &cs("")));
    assert!(starts_with_chars(&cs("https://x"), &cs("https://")));
    assert!(!starts_with_chars(&cs("http"), &cs("https://")));
}

#[test]
fn remove_all_and_strip() {
    assert_eq!(remove_all_chars(&cs("aXXbXXXc"), &cs("XX")), cs("abXc"));
    assert_eq!(strip_trailing_chars(&cs("a///"), '/'), cs("a"));
    assert_eq!(strip_trailing_chars(&cs("///"), '/'), cs(""));
}

#[test]
fn lexicographic_order() {
    assert!(lex_less(&cs("abc"), &cs("abd")));
    assert!(lex_less(&cs("ab"), &cs("abc")));
    assert!(!lex_less(&cs("abc"), &cs("abc")));
    assert!(!lex_less(&cs("b"), &cs("abc")));
}

#[test]
fn parses_u64_like_std() {
    for s in ["0", "+12", "007", "18446744073709551615", "18446744073709551616", "", "+", "-1", "1a", " 1"] {
        assert_eq!(parse_u64_chars(&cs(s)), s.parse::<u64>().ok(), "{:?}", s);
    }
}

#[test]
fn parses_i32_like_std() {
    for s in ["0", "-0", "+5", "-2147483648", "2147483647", "2147483648", "-2147483649", "-", "", "12x"] {
        assert_eq!(parse_i32_chars(&cs(s)), s.parse::<i32>().ok(), "{:?}", s);
    }
}
