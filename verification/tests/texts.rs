use harness::number::{decimal_text, parse_u64};
use harness::order::{sort_strings, str_le};
use harness::text::{
    str_eq, str_replace, str_starts_with, str_strip_prefix, str_trim, str_trim_end, str_trim_start,
};
use harness::words::{str_ascii_lowercase, str_lines, str_single_spaced, str_without, str_words};

#[test]
fn white_space_is_that_of_unicode() {
    for code in 0..=0x10_ffff_u32 {
        if let Some(c) = char::from_u32(code) {
            let text = format!("{c}x{c}");
            assert_eq!(str_trim(&text), text.trim());
        }
    }
}

#[test]
fn ends_are_trimmed() {
    assert_eq!(str_trim_start(" \ta b "), "a b ");
    assert_eq!(str_trim_end(" a b\n "), " a b");
    assert_eq!(str_trim("\u{3000}a\u{a0}"), "a");
    assert_eq!(str_trim("  "), "");
}

#[test]
fn prefixes_are_found() {
    assert!(str_starts_with("abc", "ab"));
    assert!(!str_starts_with("a", "ab"));
    assert_eq!(str_strip_prefix("RRULE:x", "RRULE:"), Some("x".to_string()));
    assert_eq!(str_strip_prefix("x", "RRULE:"), None);
    assert!(str_eq("é", "é"));
    assert!(!str_eq("é", "e"));
}

#[test]
fn texts_are_replaced_from_the_left() {
    assert_eq!(str_replace("aaa", "aa", "b"), "ba");
    assert_eq!(str_replace("x{{A}}y{{A}}", "{{A}}", "1"), "x1y1");
    assert_eq!(str_replace("", "a", "b"), "");
}

#[test]
fn lines_and_words_are_split() {
    assert_eq!(str_lines("a\n\nb\n"), vec!["a", "", "b"]);
    assert_eq!(str_words(" a \u{3000}b\n"), vec!["a", "b"]);
    assert_eq!(str_single_spaced(" a \n b "), "a b");
    assert_eq!(str_without("a#b*", "#*"), "ab");
    assert_eq!(str_ascii_lowercase("AbÉ"), "abÉ");
}

#[test]
fn numbers_read_back() {
    for n in [0, 7, 10, 99, 100, 12_345, u64::MAX] {
        assert_eq!(decimal_text(n), n.to_string());
        assert_eq!(parse_u64(&decimal_text(n)), Some(n));
    }
    for text in ["", "+", "-1", "1 ", "18446744073709551616", "+7", "007", "٣"] {
        assert_eq!(parse_u64(text), text.parse::<u64>().ok());
    }
}

#[test]
fn texts_are_sorted_as_strings_are() {
    let mut items = vec!["b", "a", "", "é", "ab", "a", "😀", "\u{ffff}"];
    let sorted = sort_strings(items.iter().map(|s| s.to_string()).collect());
    items.sort();
    assert_eq!(sorted, items);
    assert!(str_le("a", "a"));
    assert!(!str_le("b", "a"));
}
