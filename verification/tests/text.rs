use csv_to_mtx::text::parse_i32;

#[test]
fn parse_i32_reads_plain_digits() {
    assert_eq!(parse_i32(b"12"), Some(12));
    assert_eq!(parse_i32(b"0"), Some(0));
    assert_eq!(parse_i32(b"007"), Some(7));
}

#[test]
fn parse_i32_reads_signs() {
    assert_eq!(parse_i32(b"-5"), Some(-5));
    assert_eq!(parse_i32(b"+7"), Some(7));
    assert_eq!(parse_i32(b"-0"), Some(0));
}

#[test]
fn parse_i32_refuses_what_is_no_integer() {
    assert_eq!(parse_i32(b""), None);
    assert_eq!(parse_i32(b"+"), None);
    assert_eq!(parse_i32(b"-"), None);
    assert_eq!(parse_i32(b"1.5"), None);
    assert_eq!(parse_i32(b" 1"), None);
    assert_eq!(parse_i32(b"1 "), None);
    assert_eq!(parse_i32(b"1_000"), None);
    assert_eq!(parse_i32(b"--1"), None);
    assert_eq!(parse_i32(b"+-1"), None);
    assert_eq!(parse_i32(b"abc"), None);
    assert_eq!(parse_i32("١٢".as_bytes()), None);
}

#[test]
fn parse_i32_keeps_to_the_range() {
    assert_eq!(parse_i32(b"2147483647"), Some(i32::MAX));
    assert_eq!(parse_i32(b"2147483648"), None);
    assert_eq!(parse_i32(b"-2147483648"), Some(i32::MIN));
    assert_eq!(parse_i32(b"-2147483649"), None);
    assert_eq!(parse_i32(b"99999999999999999999999999"), None);
    assert_eq!(parse_i32(b"00000000000000000000000001"), Some(1));
}

#[test]
fn parse_i32_agrees_with_the_standard_reading() {
    let samples = [
        "", "0", "1", "-1", "+1", "+", "-", "12a", "a12", "1e3", "0x10", "2147483647",
        "2147483648", "-2147483648", "-2147483649", "4294967296", "000", "-000", "+000",
        "3.0", " 3", "3\n", "٣", "1-", "1+1", "99999999999",
    ];
    for s in samples {
        assert_eq!(parse_i32(s.as_bytes()), s.parse::<i32>().ok(), "reading {:?}", s);
    }
}
