use meusic::text::{chars_of, contains_str, find, parse_u64_range, string_of, trim_range};

#[test]
fn char_helpers() {
    let c = chars_of("  hello world \t");
    assert_eq!(string_of(&trim_range(&c, 0, c.len())), "hello world");
    assert_eq!(find(&chars_of("abcabc"), &chars_of("ca")), Some(2));
    assert_eq!(find(&chars_of("abc"), &chars_of("")), Some(0));
    assert_eq!(find(&chars_of("abc"), &chars_of("x")), None);
    assert!(contains_str(&chars_of("xxStatusyy"), "Status"));
}

#[test]
fn integer_parsing() {
    let c = chars_of("a123b+7 18446744073709551615 18446744073709551616");
    assert_eq!(parse_u64_range(&c, 1, 4), Some(123));
    assert_eq!(parse_u64_range(&c, 5, 7), Some(7));
    assert_eq!(parse_u64_range(&c, 0, 4), None);
    assert_eq!(parse_u64_range(&c, 1, 1), None);
    assert_eq!(parse_u64_range(&c, 8, 28), Some(u64::MAX));
    assert_eq!(parse_u64_range(&c, 29, 49), None);
}
