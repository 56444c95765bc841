use gitfacade::timestamp::Timestamp;
use gitfacade::watermark::{
    format_watermark, parse_watermark, read_watermark, watermark_file, WatermarkError,
};

#[test]
fn watermark_file_has_its_fixed_name() {
    assert_eq!(watermark_file(), "latest-update.txt");
}

#[test]
fn formats_seconds_space_offset() {
    assert_eq!(format_watermark(&Timestamp::new(1608839587, -300)), b"1608839587 -300".to_vec());
    assert_eq!(format_watermark(&Timestamp::new(0, 0)), b"0 0".to_vec());
    assert_eq!(format_watermark(&Timestamp::new(-5, 60)), b"-5 60".to_vec());
}

#[test]
fn formats_the_extremes() {
    assert_eq!(
        format_watermark(&Timestamp::new(i64::MIN, i32::MIN)),
        b"-9223372036854775808 -2147483648".to_vec()
    );
    assert_eq!(
        format_watermark(&Timestamp::new(i64::MAX, i32::MAX)),
        b"9223372036854775807 2147483647".to_vec()
    );
}

#[test]
fn parses_two_fields() {
    assert_eq!(parse_watermark(b"1608839587 -300"), Ok(Timestamp::new(1608839587, -300)));
    assert_eq!(parse_watermark(b"0 0"), Ok(Timestamp::new(0, 0)));
}

#[test]
fn parses_around_any_whitespace() {
    assert_eq!(parse_watermark(b"  12\t34\n"), Ok(Timestamp::new(12, 34)));
    assert_eq!(parse_watermark(b"\r\n12\n\n34"), Ok(Timestamp::new(12, 34)));
    assert_eq!(parse_watermark(b"12\x0b34\x0c"), Ok(Timestamp::new(12, 34)));
}

#[test]
fn ignores_what_follows_the_second_field() {
    assert_eq!(parse_watermark(b"1 2 3"), Ok(Timestamp::new(1, 2)));
    assert_eq!(parse_watermark(b"1 2 junk"), Ok(Timestamp::new(1, 2)));
}

#[test]
fn parses_explicit_plus_signs() {
    assert_eq!(parse_watermark(b"+7 +60"), Ok(Timestamp::new(7, 60)));
}

#[test]
fn empty_content_misses_the_seconds() {
    assert_eq!(parse_watermark(b""), Err(WatermarkError::MissingSeconds));
    assert_eq!(parse_watermark(b" \n\t "), Err(WatermarkError::MissingSeconds));
}

#[test]
fn one_field_misses_the_offset() {
    assert_eq!(parse_watermark(b"12"), Err(WatermarkError::MissingOffset));
    assert_eq!(parse_watermark(b" 12 \n"), Err(WatermarkError::MissingOffset));
}

#[test]
fn bad_seconds_are_reported_first() {
    assert_eq!(parse_watermark(b"x 1"), Err(WatermarkError::BadSeconds));
    assert_eq!(parse_watermark(b"x"), Err(WatermarkError::BadSeconds));
    assert_eq!(parse_watermark(b"x y"), Err(WatermarkError::BadSeconds));
    assert_eq!(parse_watermark(b"9223372036854775808 0"), Err(WatermarkError::BadSeconds));
    assert_eq!(parse_watermark(b"12,34"), Err(WatermarkError::BadSeconds));
}

#[test]
fn bad_offset_is_reported() {
    assert_eq!(parse_watermark(b"1 x"), Err(WatermarkError::BadOffset));
    assert_eq!(parse_watermark(b"1 2147483648"), Err(WatermarkError::BadOffset));
    assert_eq!(parse_watermark(b"1 1.5"), Err(WatermarkError::BadOffset));
}

#[test]
fn non_ascii_bytes_are_no_whitespace() {
    assert_eq!(parse_watermark(b"1\xc2\xa02"), Err(WatermarkError::BadSeconds));
}

#[test]
fn a_written_watermark_is_read_back() {
    let times = vec![
        Timestamp::new(0, 0),
        Timestamp::new(1608839587, -300),
        Timestamp::new(-1, 1),
        Timestamp::new(i64::MIN, i32::MIN),
        Timestamp::new(i64::MAX, i32::MAX),
        Timestamp::new(i64::MIN, i32::MAX),
    ];
    for t in times {
        assert_eq!(parse_watermark(&format_watermark(&t)), Ok(t));
    }
}

#[test]
fn a_facade_without_the_file_holds_no_watermark() {
    assert_eq!(read_watermark(None), Ok(None));
}

#[test]
fn a_facade_with_the_file_holds_its_watermark() {
    assert_eq!(read_watermark(Some(b"12 -60\n")), Ok(Some(Timestamp::new(12, -60))));
    assert_eq!(
        read_watermark(Some(&format_watermark(&Timestamp::new(7, 7)))),
        Ok(Some(Timestamp::new(7, 7)))
    );
}

#[test]
fn a_malformed_file_is_an_error_not_an_absent_watermark() {
    assert_eq!(read_watermark(Some(b"")), Err(WatermarkError::MissingSeconds));
    assert_eq!(read_watermark(Some(b"1")), Err(WatermarkError::MissingOffset));
    assert_eq!(read_watermark(Some(b"a b")), Err(WatermarkError::BadSeconds));
    assert_eq!(read_watermark(Some(b"1 b")), Err(WatermarkError::BadOffset));
}
