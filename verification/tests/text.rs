use emanate::text::{
    chars_of, compare, decimal, ends_with, fit, parse_u32, same_text, split, IntError, Order,
};

#[test]
fn chars_of_keeps_every_character() {
    assert_eq!(chars_of("a-ß/"), vec!['a', '-', 'ß', '/']);
    assert!(chars_of("").is_empty());
}

#[test]
fn split_cuts_at_every_separator() {
    assert_eq!(split("1.2.3", '.'), vec!["1", "2", "3"]);
    assert_eq!(split("abc", '.'), vec!["abc"]);
    assert_eq!(split("", '.'), vec![""]);
    assert_eq!(split(".a..", '.'), vec!["", "a", "", ""]);
}

#[test]
fn parse_u32_reads_decimal_numbers() {
    assert_eq!(parse_u32("0"), Ok(0));
    assert_eq!(parse_u32("12"), Ok(12));
    assert_eq!(parse_u32("007"), Ok(7));
    assert_eq!(parse_u32("+15"), Ok(15));
    assert_eq!(parse_u32("4294967295"), Ok(u32::MAX));
}

#[test]
fn parse_u32_agrees_with_the_standard_library() {
    let cases = [
        "", "+", "-", "-1", "1a", "a1", " 1", "1 ", "4294967296", "99999999999", "++1", "1_0",
        "42", "+0", "99999999999x", "x99999999999",
    ];
    for case in cases {
        assert_eq!(parse_u32(case).ok(), case.parse::<u32>().ok(), "{}", case);
    }
}

#[test]
fn parse_u32_names_the_fault() {
    assert_eq!(parse_u32(""), Err(IntError::Empty));
    assert_eq!(parse_u32("+"), Err(IntError::InvalidDigit));
    assert_eq!(parse_u32("-3"), Err(IntError::InvalidDigit));
    assert_eq!(parse_u32("12x"), Err(IntError::InvalidDigit));
    assert_eq!(parse_u32("4294967296"), Err(IntError::Overflow));
    assert_eq!(parse_u32("99999999999x"), Err(IntError::Overflow));
}

#[test]
fn decimal_writes_numbers_without_leading_zeros() {
    assert_eq!(decimal(0), "0");
    assert_eq!(decimal(9), "9");
    assert_eq!(decimal(10), "10");
    assert_eq!(decimal(1203), "1203");
    assert_eq!(decimal(u32::MAX), "4294967295");
}

#[test]
fn compare_orders_texts_by_character() {
    assert_eq!(compare("", ""), Order::Equal);
    assert_eq!(compare("", "a"), Order::Less);
    assert_eq!(compare("a", ""), Order::Greater);
    assert_eq!(compare("abc", "abd"), Order::Less);
    assert_eq!(compare("b", "abc"), Order::Greater);
    assert_eq!(compare("rc1", "rc1"), Order::Equal);
    assert_eq!(compare("rc1", "rc10"), Order::Less);
}

#[test]
fn same_text_and_ends_with() {
    assert!(same_text("abc", "abc"));
    assert!(!same_text("abc", "abd"));
    assert!(ends_with("file.tar.gz", ".tar.gz"));
    assert!(ends_with("file.zip", ""));
    assert!(!ends_with("zip", ".zip"));
    assert!(!ends_with("file.zip", ".tgz"));
}

#[test]
fn fit_pads_on_the_left() {
    assert_eq!(fit("ab", 4), "  ab");
    assert_eq!(fit("abcd", 4), "abcd");
    assert_eq!(fit("abcde", 4), "abcde");
    assert_eq!(fit("", 2), "  ");
}
