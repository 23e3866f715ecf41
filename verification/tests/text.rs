use comic_viewer::decimal::{parse_i64_chars, write_i64};
use comic_viewer::text::{
    chars_of, contains_chars, eq_ignore_ascii_case_chars, is_whitespace, split_once_chars,
    string_from_str, trim_chars,
};

fn v(s: &str) -> Vec<char> {
    s.chars().collect()
}

fn s(v: &[char]) -> String {
    v.iter().collect()
}

#[test]
fn white_space_is_that_of_char() {
    for c in (0u32..=0x10FFFF).filter_map(char::from_u32) {
        assert_eq!(is_whitespace(c), c.is_whitespace(), "{:x}", c as u32);
    }
}

#[test]
fn trim_matches_str_trim() {
    for t in ["", "  ", " a ", "\u{3000}x y\t\r\n", "abc", "\u{85}z\u{2028}", " \u{200b}a"] {
        assert_eq!(s(&trim_chars(&v(t))), t.trim(), "{t:?}");
    }
}

#[test]
fn split_once_matches_str() {
    for t in ["a:b", ":", "abc", "a:b:c", "", "x:"] {
        let got = split_once_chars(&v(t), ':').map(|(a, b)| (s(&a), s(&b)));
        let want = t.split_once(':').map(|(a, b)| (a.to_string(), b.to_string()));
        assert_eq!(got, want, "{t:?}");
    }
}

#[test]
fn contains_matches_str() {
    for (h, n) in [("hello", "ll"), ("hello", ""), ("", ""), ("", "a"), ("abc", "abcd"), ("aab", "ab"), ("日本語", "本")] {
        assert_eq!(contains_chars(&v(h), &v(n)), h.contains(n), "{h:?} {n:?}");
    }
}

#[test]
fn ascii_case_matches_str() {
    for (a, b) in [("PNG", "png"), ("Jpeg", "jPEG"), ("gif", "gifs"), ("é", "É"), ("a1", "A1"), ("[", "{")] {
        assert_eq!(eq_ignore_ascii_case_chars(&v(a), &v(b)), a.eq_ignore_ascii_case(b), "{a:?} {b:?}");
    }
}

#[test]
fn decimal_matches_std() {
    for n in [0i64, 7, -7, 10, 99, 100, -100, 1234567890, i64::MAX, i64::MIN, i64::MIN + 1] {
        let mut out = Vec::new();
        write_i64(&mut out, n);
        assert_eq!(s(&out), n.to_string());
        assert_eq!(parse_i64_chars(&out), Some(n));
    }
    for t in ["", "+", "-", "+-1", "01", "-0", "+0", " 1", "1 ", "9223372036854775808", "-9223372036854775809", "99999999999999999999999", "١٢"] {
        assert_eq!(parse_i64_chars(&v(t)), t.parse::<i64>().ok(), "{t:?}");
    }
}

#[test]
fn strings_round_trip() {
    assert_eq!(chars_of("日本語 text"), v("日本語 text"));
    assert_eq!(string_from_str("ギャラリーID"), "ギャラリーID");
}
