use gitfacade::decimal::{read_i32, read_i64, write_i64};

#[test]
fn writes_zero() {
    assert_eq!(write_i64(0), b"0".to_vec());
}

#[test]
fn writes_positive_without_sign() {
    assert_eq!(write_i64(1608839587), b"1608839587".to_vec());
    assert_eq!(write_i64(7), b"7".to_vec());
    assert_eq!(write_i64(10), b"10".to_vec());
}

#[test]
fn writes_negative_with_minus() {
    assert_eq!(write_i64(-1), b"-1".to_vec());
    assert_eq!(write_i64(-300), b"-300".to_vec());
}

#[test]
fn writes_the_extremes() {
    assert_eq!(write_i64(i64::MAX), b"9223372036854775807".to_vec());
    assert_eq!(write_i64(i64::MIN), b"-9223372036854775808".to_vec());
}

#[test]
fn reads_plain_digits() {
    assert_eq!(read_i64(b"12"), Some(12));
    assert_eq!(read_i64(b"0"), Some(0));
    assert_eq!(read_i64(b"1608839587"), Some(1608839587));
}

#[test]
fn reads_signs() {
    assert_eq!(read_i64(b"+12"), Some(12));
    assert_eq!(read_i64(b"-12"), Some(-12));
    assert_eq!(read_i64(b"-0"), Some(0));
    assert_eq!(read_i64(b"+0"), Some(0));
}

#[test]
fn reads_leading_zeros() {
    assert_eq!(read_i64(b"007"), Some(7));
    assert_eq!(read_i64(b"-000000000000000000000000000000000012"), Some(-12));
    assert_eq!(
        read_i64(b"00000000000000000000009223372036854775807"),
        Some(i64::MAX)
    );
}

#[test]
fn reads_the_extremes() {
    assert_eq!(read_i64(b"9223372036854775807"), Some(i64::MAX));
    assert_eq!(read_i64(b"-9223372036854775808"), Some(i64::MIN));
}

#[test]
fn rejects_what_does_not_fit_in_64_bits() {
    assert_eq!(read_i64(b"9223372036854775808"), None);
    assert_eq!(read_i64(b"-9223372036854775809"), None);
    assert_eq!(read_i64(b"99999999999999999999999999"), None);
    assert_eq!(read_i64(b"-99999999999999999999999999"), None);
}

#[test]
fn rejects_text_that_is_no_number() {
    assert_eq!(read_i64(b""), None);
    assert_eq!(read_i64(b"-"), None);
    assert_eq!(read_i64(b"+"), None);
    assert_eq!(read_i64(b"--1"), None);
    assert_eq!(read_i64(b"+-1"), None);
    assert_eq!(read_i64(b"1a"), None);
    assert_eq!(read_i64(b"a1"), None);
    assert_eq!(read_i64(b" 1"), None);
    assert_eq!(read_i64(b"1 "), None);
    assert_eq!(read_i64(b"1.5"), None);
    assert_eq!(read_i64(b"1-"), None);
}

#[test]
fn reads_32_bits() {
    assert_eq!(read_i32(b"-300"), Some(-300));
    assert_eq!(read_i32(b"2147483647"), Some(i32::MAX));
    assert_eq!(read_i32(b"-2147483648"), Some(i32::MIN));
    assert_eq!(read_i32(b"2147483648"), None);
    assert_eq!(read_i32(b"-2147483649"), None);
    assert_eq!(read_i32(b"9223372036854775808"), None);
    assert_eq!(read_i32(b"x"), None);
}

#[test]
fn reading_gives_back_what_was_written() {
    let values: Vec<i64> = vec![0, 1, -1, 9, 10, -10, 99, 100, 1608839587, -62135596800, i64::MAX, i64::MIN];
    for v in values {
        assert_eq!(read_i64(&write_i64(v)), Some(v));
    }
}
