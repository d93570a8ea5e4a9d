use krabdex::text::{decimal_text, parse_u64, prefix_chars, substring, trim_slashes_text};

#[test]
fn decimal_text_renders_integers() {
    for (n, s) in [(0u64, "0"), (7, "7"), (10, "10"), (25, "25"), (1000, "1000"), (u64::MAX, "18446744073709551615")] {
        assert_eq!(decimal_text(n), s);
    }
}

#[test]
fn parse_u64_matches_std() {
    for s in ["", "+", "-", "-0", "1", "+1", "++1", "01", "12a", "a12", " 1", "1 ", "٣", "18446744073709551615", "18446744073709551616", "99999999999999999999999"] {
        assert_eq!(parse_u64(s), s.parse::<u64>().ok(), "{s:?}");
    }
}

#[test]
fn prefix_and_substring_count_characters() {
    assert_eq!(prefix_chars("héllo", 2), "hé");
    assert_eq!(prefix_chars("héllo", 10), "héllo");
    assert_eq!(prefix_chars("", 3), "");
    assert_eq!(substring("a€b𝄞c", 1, 4), "€b𝄞");
}

#[test]
fn trim_slashes_matches_trim_matches() {
    for s in ["", "/", "///", "/api/v2/", "api/v2", "//a//b//", "x", "/é/"] {
        assert_eq!(trim_slashes_text(s), s.trim_matches('/'), "{s:?}");
    }
}
