use cohort_stats::record::make_name;
use cohort_stats::text::{chars_le, chars_of, decimal_string, parse_count, push_decimal, str_le};

#[test]
fn decimal_string_writes_numbers() {
    assert_eq!(decimal_string(0), "0");
    assert_eq!(decimal_string(7), "7");
    assert_eq!(decimal_string(10), "10");
    assert_eq!(decimal_string(4096), "4096");
    assert_eq!(decimal_string(u64::MAX), "18446744073709551615");
    for n in [1u64, 9, 99, 100, 12345, 1 << 32, 999_999_999_999] {
        assert_eq!(decimal_string(n), n.to_string());
    }
}

#[test]
fn push_decimal_appends() {
    let mut s = String::from("x=");
    push_decimal(&mut s, 305);
    assert_eq!(s, "x=305");
    push_decimal(&mut s, 0);
    assert_eq!(s, "x=3050");
}

#[test]
fn make_name_joins_prefix_and_identifier() {
    assert_eq!(make_name(1), "NAME1");
    assert_eq!(make_name(111), "NAME111");
    assert_eq!(make_name(u32::MAX), "NAME4294967295");
}

#[test]
fn chars_of_keeps_every_character() {
    assert_eq!(chars_of(""), Vec::<char>::new());
    assert_eq!(chars_of("a1é"), vec!['a', '1', 'é']);
}

#[test]
fn parse_count_reads_decimal_numerals() {
    assert_eq!(parse_count("0"), 0);
    assert_eq!(parse_count("3"), 3);
    assert_eq!(parse_count("+3"), 3);
    assert_eq!(parse_count("0042"), 42);
    assert_eq!(parse_count("2147483647"), 2147483647);
    assert_eq!(parse_count("+2147483647"), 2147483647);
}

#[test]
fn parse_count_gives_zero_for_the_rest() {
    for text in [
        "", "+", "-", "-3", "-0", "3-", "1 2", " 1", "1\n", "0x10", "1_000", "2147483648",
        "99999999999999999999999999", "three", "١٢",
    ] {
        assert_eq!(parse_count(text), 0, "text {:?}", text);
    }
}

#[test]
fn parse_count_agrees_with_the_standard_parser() {
    for text in ["12", "+7", "007", "2147483647", "2147483648", "", "x", "4294967296"] {
        let expected = text.parse::<i32>().unwrap_or_default();
        assert_eq!(parse_count(text) as i64, i64::from(expected.max(0)), "text {:?}", text);
    }
}

#[test]
fn str_le_is_lexicographic() {
    assert!(str_le("", ""));
    assert!(str_le("", "a"));
    assert!(!str_le("a", ""));
    assert!(str_le("NAME1", "NAME1"));
    assert!(str_le("NAME10", "NAME9"));
    assert!(!str_le("NAME9", "NAME10"));
    assert!(str_le("NAME1", "NAME10"));
    assert!(!str_le("NAME10", "NAME1"));
    assert!(str_le("NAME9", "None"));
    assert!(str_le("Z", "a"));
    assert!(str_le("z", "é"));
}

#[test]
fn str_le_agrees_with_the_standard_order() {
    let words = ["", "NAME1", "NAME10", "NAME2", "NAME9", "NAME99", "None", "n", "é", "日本"];
    for a in words {
        for b in words {
            assert_eq!(str_le(a, b), a <= b, "{:?} {:?}", a, b);
        }
    }
}

#[test]
fn chars_le_decides_by_the_first_difference() {
    assert!(chars_le(&vec!['a', 'b'], &vec!['a', 'c']));
    assert!(!chars_le(&vec!['a', 'c'], &vec!['a', 'b', 'z']));
    assert!(chars_le(&vec!['a'], &vec!['a', 'a']));
}
