use blobert::range::parse_range;

#[test]
fn range_is_two_numbers_and_a_hyphen() {
    assert_eq!(parse_range("0-5"), Some((0, 5)));
    assert_eq!(parse_range("1024-2047"), Some((1024, 2047)));
    assert_eq!(parse_range("007-010"), Some((7, 10)));
    assert_eq!(parse_range("5-0"), Some((5, 0)));
}

#[test]
fn range_with_anything_else_is_none() {
    for text in ["", "-", "5", "5-", "-5", "1-2-3", "a-b", "1 -2", "1-2 ", " 1-2", "1--2", "0x1-2", "\u{663}-5", "1-\u{e9}"] {
        assert_eq!(parse_range(text), None, "{:?}", text);
    }
}

#[test]
fn range_offsets_must_fit() {
    assert_eq!(
        parse_range("18446744073709551615-18446744073709551615"),
        Some((u64::MAX, u64::MAX))
    );
    assert_eq!(parse_range("18446744073709551616-1"), None);
    assert_eq!(parse_range("1-18446744073709551616"), None);
    assert_eq!(parse_range("99999999999999999999999-1"), None);
    assert_eq!(parse_range("00000000000000000000001-2"), Some((1, 2)));
}
