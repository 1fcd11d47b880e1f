use redis_server::clock::{current_unix_milliseconds, unix_milliseconds};
use redis_server::error::{invalid_data, unexpected_eof, ErrorKind};
use redis_server::number::{
    parse_list_index, parse_milliseconds, parse_number, read_i64, write_decimal,
    write_signed_decimal,
};

#[test]
fn numbers_are_read() {
    assert_eq!(parse_number(b"0").unwrap(), 0);
    assert_eq!(parse_number(b"42").unwrap(), 42);
    assert_eq!(parse_number(b"+42").unwrap(), 42);
    assert_eq!(parse_number(b"0042").unwrap(), 42);
    assert_eq!(parse_number(usize::MAX.to_string().as_bytes()).unwrap(), usize::MAX);
}

#[test]
fn bad_numbers_are_rejected() {
    for text in ["", "+", "-", "-1", " 1", "1 ", "1a", "18446744073709551616"] {
        let error = parse_number(text.as_bytes()).unwrap_err();
        assert_eq!(error.kind, ErrorKind::InvalidData);
        assert_eq!(error.message, "invalid number");
    }
    assert_eq!(parse_number(b"\xff").unwrap_err().message, "invalid number");
}

#[test]
fn milliseconds_are_read() {
    assert_eq!(parse_milliseconds(b"100").unwrap(), 100);
    assert_eq!(parse_milliseconds(b"18446744073709551615").unwrap(), u64::MAX);
}

#[test]
fn text_that_is_no_utf8_has_a_message_of_its_own() {
    assert_eq!(parse_milliseconds(b"\xff1").unwrap_err().message, "invalid milliseconds");
    assert_eq!(parse_milliseconds(b"1x").unwrap_err().message, "invalid expiry");
    assert_eq!(parse_milliseconds("\u{e9}".as_bytes()).unwrap_err().message, "invalid expiry");
    assert_eq!(parse_milliseconds(b"").unwrap_err().message, "invalid expiry");
}

#[test]
fn list_indices_are_read() {
    assert_eq!(parse_list_index(b"-1").unwrap(), -1);
    assert_eq!(parse_list_index(b"+7").unwrap(), 7);
    assert_eq!(parse_list_index(b"9223372036854775807").unwrap(), i64::MAX);
    assert_eq!(parse_list_index(b"-9223372036854775808").unwrap(), i64::MIN);
    for text in ["", "-", "+-1", "--1", "9223372036854775808", "-9223372036854775809", "1.0"] {
        assert_eq!(parse_list_index(text.as_bytes()).unwrap_err().message, "invalid list index");
    }
}

#[test]
fn written_numbers_read_back() {
    for value in [0u128, 7, 10, 99, 100, 18446744073709551615] {
        let mut out = b"x".to_vec();
        write_decimal(&mut out, value);
        assert_eq!(out, format!("x{}", value).into_bytes());
    }
    for value in [i64::MIN, -10, -1, 0, 1, i64::MAX] {
        let mut out = Vec::new();
        write_signed_decimal(&mut out, value as i128);
        assert_eq!(out, value.to_string().into_bytes());
        assert_eq!(read_i64(&out), Some(value));
    }
}

#[test]
fn clock_readings_become_milliseconds() {
    assert_eq!(unix_milliseconds(Some((1, 999_999_999))), Some(1999));
    assert_eq!(unix_milliseconds(Some((0, 0))), Some(0));
    assert_eq!(unix_milliseconds(Some((18446744073709551, 615_000_000))), Some(u64::MAX));
    assert_eq!(unix_milliseconds(Some((18446744073709551, 616_000_000))), None);
    assert_eq!(unix_milliseconds(None), None);
}

#[test]
fn the_wall_clock_is_read() {
    // The first of January 2020, as a bound that lies in the past.
    let now = current_unix_milliseconds().unwrap();
    assert!(now > 1_577_836_800_000);
    assert!(current_unix_milliseconds().unwrap() >= now);
}

#[test]
fn errors_carry_kind_and_message() {
    let error = invalid_data("no");
    assert_eq!((error.kind, error.message.as_str()), (ErrorKind::InvalidData, "no"));
    let error = unexpected_eof("early eof");
    assert_eq!((error.kind, error.message.as_str()), (ErrorKind::UnexpectedEof, "early eof"));
}
