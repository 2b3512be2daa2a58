//! Text, numbers and statuses.

use reductstore::error::{ErrorCode, ReductError};
use reductstore::numbers::{sort_numbers, sum_up};
use reductstore::text::{decimal_text, ends_with, hex_byte_text, parse_u64, same_text};

#[test]
fn writes_and_reads_numbers() {
    for n in [0, 7, 10, 99, 1_000_000, u64::MAX] {
        assert_eq!(decimal_text(n), format!("{}", n));
        assert_eq!(parse_u64(&decimal_text(n)), Some(n));
    }
    for text in ["", "+", "-1", "1a", " 1", "18446744073709551616", "٣"] {
        assert_eq!(parse_u64(text), None);
        assert!(text.parse::<u64>().is_err());
    }
    assert_eq!(parse_u64("+42"), Some(42));
    assert_eq!(parse_u64("007"), Some(7));
}

#[test]
fn writes_bytes_in_hexadecimal() {
    for byte in 0..=255u8 {
        assert_eq!(hex_byte_text(byte), format!("{:#04x}", byte));
    }
}

#[test]
fn compares_text() {
    assert!(same_text("abc", "abc"));
    assert!(!same_text("abc", "abd"));
    assert!(!same_text("ab", "abc"));
    assert!(same_text("", ""));
    assert!(same_text("ß", "ß"));
}

#[test]
fn finds_the_end_of_a_text() {
    for (text, end) in [("abc", "bc"), ("abc", "abc"), ("abc", ""), ("", ""), ("aßc", "ßc")] {
        assert!(ends_with(text, end));
    }
    for (text, end) in [("abc", "ab"), ("bc", "abc"), ("", "a"), ("aßc", "sc")] {
        assert!(!ends_with(text, end));
    }
}

#[test]
fn statuses_have_numbers() {
    for (code, number) in [
        (ErrorCode::Unknown, -1),
        (ErrorCode::NoContent, 204),
        (ErrorCode::BadRequest, 400),
        (ErrorCode::Conflict, 409),
        (ErrorCode::UnprocessableEntity, 422),
        (ErrorCode::TooManyRequests, 429),
        (ErrorCode::InternalServerError, 500),
        (ErrorCode::InsufficientStorage, 507),
    ] {
        assert_eq!(code.int_value(), number);
        assert_eq!(ErrorCode::from_int(number as i64), Some(code));
    }
    assert_eq!(ErrorCode::from_int(9999), None);
    assert_eq!(ErrorCode::from_int(70_000), None);
}

#[test]
fn errors_carry_a_message() {
    let error = ReductError::new(ErrorCode::NotFound, "nothing here");
    assert_eq!(error.status(), ErrorCode::NotFound);
    assert_eq!(error.message(), "nothing here");
    assert_eq!(error.clone(), error);
}

#[test]
fn sorts_and_sums() {
    let mut numbers = vec![3, 1, 2, 3, 0];
    sort_numbers(&mut numbers);
    assert_eq!(numbers, vec![0, 1, 2, 3, 3]);
    assert_eq!(
        sum_up(&vec![u64::MAX, u64::MAX]),
        2 * (u64::MAX as u128)
    );
}
