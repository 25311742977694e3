use daily_git_brief::text::{parse_i32, parse_i64, parse_id_or_zero, u64_to_dec};

#[test]
fn parse_i64_plain() {
    assert_eq!(parse_i64("123"), Some(123));
    assert_eq!(parse_i64("0"), Some(0));
    assert_eq!(parse_i64("+42"), Some(42));
    assert_eq!(parse_i64("-17"), Some(-17));
}

#[test]
fn parse_i64_range_edges() {
    assert_eq!(parse_i64("9223372036854775807"), Some(i64::MAX));
    assert_eq!(parse_i64("-9223372036854775808"), Some(i64::MIN));
    assert_eq!(parse_i64("9223372036854775808"), None);
    assert_eq!(parse_i64("-9223372036854775809"), None);
    assert_eq!(parse_i64("99999999999999999999999999"), None);
}

#[test]
fn parse_i64_rejects_malformed() {
    assert_eq!(parse_i64(""), None);
    assert_eq!(parse_i64("+"), None);
    assert_eq!(parse_i64("-"), None);
    assert_eq!(parse_i64("12a"), None);
    assert_eq!(parse_i64(" 12"), None);
    assert_eq!(parse_i64("1 2"), None);
    assert_eq!(parse_i64("１２"), None);
}

#[test]
fn parse_matches_std() {
    let cases = ["123", "-0", "+007", "abc", "", "9223372036854775808", "2147483648", "-2147483649"];
    for c in cases {
        assert_eq!(parse_i64(c), c.parse::<i64>().ok(), "i64 on {:?}", c);
        assert_eq!(parse_i32(c), c.parse::<i32>().ok(), "i32 on {:?}", c);
    }
}

#[test]
fn parse_i32_range_edges() {
    assert_eq!(parse_i32("2147483647"), Some(i32::MAX));
    assert_eq!(parse_i32("-2147483648"), Some(i32::MIN));
    assert_eq!(parse_i32("2147483648"), None);
    assert_eq!(parse_i32("-2147483649"), None);
}

#[test]
fn id_falls_back_to_zero() {
    assert_eq!(parse_id_or_zero("786"), 786);
    assert_eq!(parse_id_or_zero("abc"), 0);
    assert_eq!(parse_id_or_zero(""), 0);
    assert_eq!(parse_id_or_zero("-5"), -5);
}

#[test]
fn decimal_rendering() {
    assert_eq!(u64_to_dec(0), "0");
    assert_eq!(u64_to_dec(7), "7");
    assert_eq!(u64_to_dec(10), "10");
    assert_eq!(u64_to_dec(90817), "90817");
    assert_eq!(u64_to_dec(u64::MAX), "18446744073709551615");
}
