use ggg::ids::IdSet;
use ggg::text::{
    contains_text, decimal_i64, decimal_u64, eq_ignore_case, le_text, lines, parse_up_to,
    read_flag, read_number, sort_texts, split_at_char, split_once, starts_with, trim, NumberError,
};
use ggg::text_map::TextMap;

#[test]
fn numbers_are_shown_and_read() {
    for n in [0u64, 9, 10, 12345, u64::MAX] {
        assert_eq!(decimal_u64(n), n.to_string());
        assert_eq!(parse_up_to(&decimal_u64(n), u64::MAX), Some(n));
    }
    assert_eq!(decimal_i64(i64::MIN), i64::MIN.to_string());
    assert_eq!(parse_up_to("300", 255), None);
    assert_eq!(read_number("", 9), Err(NumberError::Empty));
    assert_eq!(read_number("1x", 99), Err(NumberError::Digit));
    assert_eq!(read_number("100", 99), Err(NumberError::TooLarge));
    assert_eq!(read_flag("true"), Some(true));
    assert_eq!(read_flag("True"), None);
}

#[test]
fn lines_are_those_of_std() {
    for s in ["", "\n", "a", "a\n", "a\r\nb\r", "\r\n\n", "a\rb\n", "\n\nx"] {
        let expected: Vec<String> = s.lines().map(|l| l.to_string()).collect();
        assert_eq!(lines(s), expected);
    }
}

#[test]
fn texts_are_cut_as_by_std() {
    assert_eq!(trim("  a b\t\n"), "a b");
    assert_eq!(trim("\u{3000}x\u{a0}"), "\u{3000}x\u{a0}".trim());
    assert_eq!(split_at_char("a,,b", ','), vec!["a", "", "b"]);
    assert_eq!(split_once("a=b=c", '='), Some(("a".to_string(), "b=c".to_string())));
    assert_eq!(split_once("abc", '='), None);
    assert!(contains_text("hello", "ell"));
    assert!(!contains_text("hello", "elo"));
    assert!(starts_with("hello", "he"));
    assert!(eq_ignore_case("ReFerer", "referer"));
}

#[test]
fn texts_are_sorted_by_code_point() {
    let mut v: Vec<String> =
        ["b", "a", "", "ab", "é", "z"].iter().map(|s| s.to_string()).collect();
    let sorted = sort_texts(v.clone());
    v.sort();
    assert_eq!(sorted, v);
    assert!(le_text("a", "ab"));
    assert!(!le_text("b", "ab"));
}

#[test]
fn maps_keep_the_order_of_insertion() {
    let mut m: TextMap<u32> = TextMap::new();
    m.insert("b".to_string(), 1);
    m.insert("a".to_string(), 2);
    m.insert("b".to_string(), 3);
    assert_eq!(m.len(), 2);
    assert_eq!(m.key_at(0), "b");
    assert_eq!(m.get("b"), Some(&3));
    assert_eq!(m.remove("b"), Some(3));
    assert_eq!(m.get("b"), None);
    m.clear();
    assert!(m.is_empty());
}

#[test]
fn sets_of_ids_hold_each_once() {
    let mut s = IdSet::new();
    s.insert(1);
    s.insert(1);
    s.insert(2);
    assert_eq!(s.len(), 2);
    assert!(s.contains(2));
    assert!(s.remove(2));
    assert!(!s.remove(2));
}
