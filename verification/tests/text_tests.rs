use device_status::strmap::TextMap;
use device_status::text::{
    chars_of, eq_ignore_ascii_case_chars, parse_i32_chars, split_chars, string_of, trim_chars,
    trim_end_matches_chars,
};

fn chars(s: &str) -> Vec<char> {
    chars_of(s)
}

#[test]
fn lookup_after_store() {
    let mut m: TextMap<usize> = TextMap::new();
    assert_eq!(m.get("E:"), None);
    m.insert("E:".to_string(), 0);
    m.insert("F:".to_string(), 1);
    assert_eq!(m.get("E:"), Some(0));
    assert_eq!(m.get("F:"), Some(1));
    m.insert("E:".to_string(), 7);
    assert_eq!(m.get("E:"), Some(7));
    assert_eq!(m.get("F:"), Some(1));
    assert_eq!(m.get("e:"), None);
    assert_eq!(m.len(), 2);
    assert_eq!(m.key_at(0), "E:");
    assert_eq!(m.value_at(0), 7);
    assert_eq!(m.key_at(1), "F:");
}

#[test]
fn trimming_unicode_whitespace() {
    assert_eq!(string_of(&trim_chars(&chars("\u{3000}\t abc \u{a0}\n"))), "abc");
    assert_eq!(string_of(&trim_chars(&chars("a b"))), "a b");
    assert_eq!(string_of(&trim_chars(&chars("   "))), "");
    assert_eq!(string_of(&trim_chars(&chars("\u{200b}x"))), "\u{200b}x");
    assert_eq!(string_of(&trim_end_matches_chars(&chars("E:\\\\"), '\\')), "E:");
}

#[test]
fn parsing_integers() {
    assert_eq!(parse_i32_chars(&chars("42")), Some(42));
    assert_eq!(parse_i32_chars(&chars("-0")), Some(0));
    assert_eq!(parse_i32_chars(&chars("007")), Some(7));
    assert_eq!(parse_i32_chars(&chars("")), None);
    assert_eq!(parse_i32_chars(&chars("-")), None);
    assert_eq!(parse_i32_chars(&chars(" 1")), None);
    assert_eq!(parse_i32_chars(&chars("1a")), None);
    assert_eq!(parse_i32_chars(&chars("99999999999")), None);
    assert_eq!(parse_i32_chars(&chars("-2147483649")), None);
    for s in ["0", "12", "-12", "+12", "2147483647", "-2147483648", "2147483648", "x", "+-1"] {
        assert_eq!(parse_i32_chars(&chars(s)), s.parse::<i32>().ok());
    }
}

#[test]
fn splitting_on_a_character() {
    let parts = split_chars(&chars("a&&b&"), '&');
    let parts: Vec<String> = parts.iter().map(string_of).collect();
    assert_eq!(parts, vec!["a", "", "b", ""]);
    let parts: Vec<String> = split_chars(&chars(""), '&').iter().map(string_of).collect();
    assert_eq!(parts, vec![""]);
}

#[test]
fn ascii_case_insensitive_equality() {
    assert!(eq_ignore_ascii_case_chars(&chars("Android"), &chars("aNDROID")));
    assert!(!eq_ignore_ascii_case_chars(&chars("Android"), &chars("Androi")));
    assert!(!eq_ignore_ascii_case_chars(&chars("\u{c9}"), &chars("\u{e9}")));
}
