use system_info::number::{parse_i32, parse_u64};

#[test]
fn counters_are_digits_with_an_optional_plus() {
    assert_eq!(parse_u64("0"), Some(0));
    assert_eq!(parse_u64("007"), Some(7));
    assert_eq!(parse_u64("+15"), Some(15));
    assert_eq!(parse_u64("18446744073709551615"), Some(u64::MAX));
    assert_eq!(parse_u64("18446744073709551616"), None);
    assert_eq!(parse_u64("99999999999999999999999999"), None);
    assert_eq!(parse_u64(""), None);
    assert_eq!(parse_u64("+"), None);
    assert_eq!(parse_u64("-1"), None);
    assert_eq!(parse_u64("1.5"), None);
    assert_eq!(parse_u64("12a"), None);
    assert_eq!(parse_u64(" 1"), None);
    assert_eq!(parse_u64("++1"), None);
    assert_eq!(parse_u64("١"), None);
}

#[test]
fn counters_agree_with_the_standard_library() {
    let tokens = ["0", "+0", "-0", "42", "+42", "", "+", "-", "4 2", "18446744073709551615",
        "18446744073709551616", "000000000000000000000000000001", "1e3", "0x10"];
    for token in tokens.iter() {
        assert_eq!(parse_u64(token), token.parse::<u64>().ok());
    }
}

#[test]
fn process_ids_may_be_signed() {
    assert_eq!(parse_i32("42"), Some(42));
    assert_eq!(parse_i32("+42"), Some(42));
    assert_eq!(parse_i32("-42"), Some(-42));
    assert_eq!(parse_i32("2147483647"), Some(i32::MAX));
    assert_eq!(parse_i32("2147483648"), None);
    assert_eq!(parse_i32("-2147483648"), Some(i32::MIN));
    assert_eq!(parse_i32("-2147483649"), None);
    assert_eq!(parse_i32("-"), None);
    assert_eq!(parse_i32("-+1"), None);
    assert_eq!(parse_i32(""), None);
    assert_eq!(parse_i32("Pidgin"), None);
}

#[test]
fn process_ids_agree_with_the_standard_library() {
    let tokens = ["0", "-0", "+0", "1", "-1", "2147483647", "2147483648", "-2147483648",
        "-2147483649", "", "+", "-", "--1", "1-", "00012"];
    for token in tokens.iter() {
        assert_eq!(parse_i32(token), token.parse::<i32>().ok());
    }
}
