use survival_cubed::text::{
    chars_eq, from_chars, is_blank, is_whitespace, lines, parse_i32, parse_u16, push_decimal,
    split_chars, to_ascii_lower, to_chars, trim, trim_chars,
};

fn cs(s: &str) -> Vec<char> {
    s.chars().collect()
}

#[test]
fn chars_round_trip() {
    assert_eq!(to_chars("héllo"), vec!['h', 'é', 'l', 'l', 'o']);
    assert_eq!(from_chars(&to_chars("héllo")), "héllo");
    assert_eq!(from_chars(&[]), "");
}

#[test]
fn trimming_matches_str_trim() {
    for s in ["  a b  ", "\t\n x\r\n", "", "   ", "\u{3000}y\u{a0}", "z"] {
        assert_eq!(from_chars(&trim(s)), s.trim());
        assert_eq!(from_chars(&trim_chars(&cs(s))), s.trim());
    }
}

#[test]
fn whitespace_and_blank() {
    for c in [' ', '\t', '\n', '\r', '\u{85}', '\u{a0}', '\u{2028}', '\u{3000}'] {
        assert!(is_whitespace(c));
        assert_eq!(is_whitespace(c), c.is_whitespace());
    }
    for c in ['a', '0', '_', '\u{200b}'] {
        assert!(!is_whitespace(c));
        assert_eq!(is_whitespace(c), c.is_whitespace());
    }
    assert!(is_blank(""));
    assert!(is_blank(" \t "));
    assert!(!is_blank(" x "));
}

#[test]
fn integers_parse_like_str_parse() {
    for s in ["0", "65535", "65536", "+7", "-1", "", "+", "12a", "007"] {
        assert_eq!(parse_u16(&cs(s)), s.parse::<u16>().ok(), "u16 {s:?}");
    }
    for s in ["0", "-0", "2147483647", "2147483648", "-2147483648", "-2147483649", "+5", "-", "--1", "1 "] {
        assert_eq!(parse_i32(&cs(s)), s.parse::<i32>().ok(), "i32 {s:?}");
    }
}

#[test]
fn decimal_text() {
    let mut out = Vec::new();
    push_decimal(&mut out, 0);
    out.push(' ');
    push_decimal(&mut out, -907);
    out.push(' ');
    push_decimal(&mut out, i64::MAX);
    assert_eq!(from_chars(&out), format!("0 -907 {}", i64::MAX));
}

#[test]
fn splitting_and_lines() {
    let parts = split_chars(&cs("a:b::c"), ':');
    assert_eq!(parts, vec![cs("a"), cs("b"), cs(""), cs("c")]);
    assert_eq!(split_chars(&cs(""), ':'), vec![cs("")]);
    for s in ["a\nb\r\nc", "a\n", "\n", "", "x\r", "one\n\ntwo\n"] {
        let expected: Vec<Vec<char>> = s.lines().map(cs).collect();
        assert_eq!(lines(&cs(s)), expected, "lines of {s:?}");
    }
}

#[test]
fn small_helpers() {
    assert!(chars_eq(&cs("abc"), &cs("abc")));
    assert!(!chars_eq(&cs("abc"), &cs("abd")));
    assert!(!chars_eq(&cs("ab"), &cs("abc")));
    assert_eq!(to_ascii_lower('Q'), 'q');
    assert_eq!(to_ascii_lower('q'), 'q');
    assert_eq!(to_ascii_lower('É'), 'É');
}
