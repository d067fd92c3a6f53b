use zeo::text::{
    begins_with, chars_of, colon_field, joined, parse_number, split_lines, split_words, trim_chars, white,
};

fn chars(s: &str) -> Vec<char> {
    s.chars().collect()
}

fn strings(v: Vec<Vec<char>>) -> Vec<String> {
    v.into_iter().map(|c| c.into_iter().collect()).collect()
}

#[test]
fn chars_of_text() {
    assert_eq!(chars_of("héllo"), vec!['h', 'é', 'l', 'l', 'o']);
    assert!(chars_of("").is_empty());
}

#[test]
fn concat_joins() {
    assert_eq!(joined("ab", "cd"), "abcd");
    assert_eq!(joined("", ""), "");
}

#[test]
fn white_space_characters() {
    for c in [' ', '\t', '\n', '\r', '\u{0B}', '\u{0C}', '\u{85}', '\u{A0}', '\u{2003}', '\u{3000}'] {
        assert!(white(c), "{:?}", c);
        assert_eq!(white(c), c.is_whitespace());
    }
    for c in ['a', '0', '_', '\u{200B}'] {
        assert!(!white(c), "{:?}", c);
        assert_eq!(white(c), c.is_whitespace());
    }
}

#[test]
fn lines_like_str_lines() {
    for s in ["a\nb\r\nc", "a\n", "", "\n\n", "x\r", "one\ntwo\n\nthree\r\n"] {
        let expected: Vec<String> = s.lines().map(|l| l.to_string()).collect();
        assert_eq!(strings(split_lines(&chars(s))), expected, "{:?}", s);
    }
}

#[test]
fn words_like_split_whitespace() {
    for s in ["  a  b\tc\n", "", "   ", "VmRSS:\t  1234 kB", "one"] {
        let expected: Vec<String> = s.split_whitespace().map(|w| w.to_string()).collect();
        assert_eq!(strings(split_words(&chars(s))), expected, "{:?}", s);
    }
}

#[test]
fn trim_like_str_trim() {
    for s in ["  a b  ", "\n\tx\r\n", "", "   ", "y"] {
        let t: String = trim_chars(&chars(s)).into_iter().collect();
        assert_eq!(t, s.trim(), "{:?}", s);
    }
}

#[test]
fn begins_with_prefix() {
    assert!(begins_with(&chars("VmRSS: 12"), "VmRSS:"));
    assert!(begins_with(&chars("abc"), ""));
    assert!(!begins_with(&chars("Vm"), "VmRSS:"));
    assert!(!begins_with(&chars("VmSize: 1"), "VmRSS:"));
}

#[test]
fn parse_number_accepts_digits() {
    assert_eq!(parse_number(&chars("0")), Some(0));
    assert_eq!(parse_number(&chars("123")), Some(123));
    assert_eq!(parse_number(&chars("+7")), Some(7));
    assert_eq!(parse_number(&chars("007")), Some(7));
    assert_eq!(parse_number(&chars("18446744073709551615")), Some(u64::MAX));
}

#[test]
fn parse_number_refuses_other_text() {
    for s in ["", "+", "-1", "12a", " 1", "1.5", "18446744073709551616", "++1"] {
        assert_eq!(parse_number(&chars(s)), None, "{:?}", s);
        assert_eq!(s.parse::<u64>().ok(), None, "{:?}", s);
    }
}

#[test]
fn colon_field_is_second_field() {
    let f = |s: &str| colon_field(&chars(s)).map(|v| v.into_iter().collect::<String>());
    assert_eq!(f("model name\t: Intel(R) Core"), Some(" Intel(R) Core".to_string()));
    assert_eq!(f("a:b:c"), Some("b".to_string()));
    assert_eq!(f("a:"), Some(String::new()));
    assert_eq!(f("abc"), None);
}
