use soar_cli::text::{
    chars_eq, contains, ends_with, find_char, from_chars, matches_at, parse_u64, rfind_char,
    starts_with, str_eq, substring, to_chars, u64_to_string,
};

fn cs(s: &str) -> Vec<char> {
    s.chars().collect()
}

#[test]
fn chars_round_trip() {
    assert_eq!(to_chars("héllo"), vec!['h', 'é', 'l', 'l', 'o']);
    assert_eq!(from_chars(&['h', 'é', 'y']), "héy");
    assert_eq!(to_chars(""), Vec::<char>::new());
    assert_eq!(from_chars(&[]), "");
}

#[test]
fn substring_takes_a_range() {
    let v = cs("abcdef");
    assert_eq!(substring(&v, 1, 4), "bcd");
    assert_eq!(substring(&v, 0, 0), "");
    assert_eq!(substring(&v, 0, 6), "abcdef");
}

#[test]
fn equality_of_texts() {
    assert!(str_eq("abc", "abc"));
    assert!(!str_eq("abc", "abd"));
    assert!(!str_eq("abc", "ab"));
    assert!(str_eq("", ""));
    assert!(chars_eq(&cs("xy"), &cs("xy")));
    assert!(!chars_eq(&cs("xy"), &cs("yx")));
}

#[test]
fn finding_characters() {
    let v = cs("a/b/c");
    assert_eq!(find_char(&v, '/'), Some(1));
    assert_eq!(rfind_char(&v, '/'), Some(3));
    assert_eq!(find_char(&v, '#'), None);
    assert_eq!(rfind_char(&v, '#'), None);
    assert_eq!(find_char(&[], 'a'), None);
}

#[test]
fn finding_texts() {
    let v = cs("hello world");
    assert!(starts_with(&v, &cs("hello")));
    assert!(!starts_with(&v, &cs("world")));
    assert!(starts_with(&v, &cs("")));
    assert!(ends_with(&v, &cs("world")));
    assert!(!ends_with(&v, &cs("hello")));
    assert!(ends_with(&v, &cs("")));
    assert!(!ends_with(&cs("ab"), &cs("abc")));
    assert!(contains(&v, &cs("lo w")));
    assert!(contains(&v, &cs("")));
    assert!(contains(&v, &cs("hello world")));
    assert!(!contains(&v, &cs("worlds")));
    assert!(!contains(&cs(""), &cs("a")));
    assert!(contains(&cs(""), &cs("")));
    assert!(matches_at(&v, &cs("world"), 6));
    assert!(!matches_at(&v, &cs("world"), 7));
    assert!(!matches_at(&v, &cs("world"), 100));
}

#[test]
fn numbers_as_text() {
    assert_eq!(u64_to_string(0), "0");
    assert_eq!(u64_to_string(7), "7");
    assert_eq!(u64_to_string(10), "10");
    assert_eq!(u64_to_string(1234567890), "1234567890");
    assert_eq!(u64_to_string(u64::MAX), "18446744073709551615");
}

#[test]
fn text_as_numbers() {
    assert_eq!(parse_u64(&cs("0")), Some(0));
    assert_eq!(parse_u64(&cs("42")), Some(42));
    assert_eq!(parse_u64(&cs("007")), Some(7));
    assert_eq!(parse_u64(&cs("18446744073709551615")), Some(u64::MAX));
    assert_eq!(parse_u64(&cs("18446744073709551616")), None);
    assert_eq!(parse_u64(&cs("99999999999999999999999")), None);
    assert_eq!(parse_u64(&cs("")), None);
    assert_eq!(parse_u64(&cs("12a")), None);
    assert_eq!(parse_u64(&cs("-1")), None);
    assert_eq!(parse_u64(&cs("+1")), None);
    assert_eq!(parse_u64(&cs(" 1")), None);
}
