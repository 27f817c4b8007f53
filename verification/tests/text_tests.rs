use flook::order::chars_less;
use flook::text::{chars_of, is_blank, is_whitespace, parse_decimal, split_lines, split_tokens, string_of};

fn cs(s: &str) -> Vec<char> {
    s.chars().collect()
}

fn strings(v: Vec<Vec<char>>) -> Vec<String> {
    v.into_iter().map(|l| l.into_iter().collect()).collect()
}

#[test]
fn lines_split_like_std() {
    for s in ["", "a", "a\n", "a\r\nb\n", "a\r", "\n", "\n\n", "x\r\r\ny", "one\ntwo"] {
        let want: Vec<String> = s.lines().map(|l| l.to_string()).collect();
        assert_eq!(strings(split_lines(&cs(s))), want, "{:?}", s);
    }
}

#[test]
fn tokens_split_on_unicode_whitespace() {
    for s in ["", "  a  b ", "a\u{3000}b\tc", "-1,3 +10,4", "\u{85}x\u{a0}y"] {
        let want: Vec<String> = s.split_whitespace().map(|t| t.to_string()).collect();
        assert_eq!(strings(split_tokens(&cs(s))), want, "{:?}", s);
    }
}

#[test]
fn whitespace_matches_std() {
    for u in 0u32..0x3100 {
        if let Some(c) = char::from_u32(u) {
            assert_eq!(is_whitespace(c), c.is_whitespace(), "{:x}", u);
        }
    }
    assert!(is_blank(&cs(" \t\n")));
    assert!(!is_blank(&cs(" x ")));
}

#[test]
fn decimal_parse_matches_std() {
    for s in ["7", "+7", "-1", "", "+", "12a", "18446744073709551615", "18446744073709551616", "007"] {
        assert_eq!(parse_decimal(&cs(s)), s.parse::<usize>().ok(), "{:?}", s);
    }
}

#[test]
fn chars_round_trip() {
    let s = "h\u{e9}llo";
    assert_eq!(chars_of(s), cs(s));
    assert_eq!(string_of(&cs(s)), s);
}

#[test]
fn char_order_matches_str_order() {
    let words = ["", "a", "ab", "b", "B", "\u{e9}", "z", "za"];
    for a in words {
        for b in words {
            assert_eq!(chars_less(&cs(a), &cs(b)), a < b, "{:?} {:?}", a, b);
        }
    }
}
