use rangedl::decimal::{parse_decimal, u64_to_decimal};
use rangedl::errors::DownloadError;
use rangedl::fetcher::range_header_value;
use rangedl::probe::evaluate_probe;

#[test]
fn decimal_rendering() {
    assert_eq!(u64_to_decimal(0), b"0".to_vec());
    assert_eq!(u64_to_decimal(7), b"7".to_vec());
    assert_eq!(u64_to_decimal(10), b"10".to_vec());
    assert_eq!(u64_to_decimal(1_234_567_890), b"1234567890".to_vec());
    assert_eq!(u64_to_decimal(u64::MAX), b"18446744073709551615".to_vec());
}

#[test]
fn decimal_parsing() {
    assert_eq!(parse_decimal(&b"1000000".to_vec()), Some(1_000_000));
    assert_eq!(parse_decimal(&b"0".to_vec()), Some(0));
    assert_eq!(parse_decimal(&b"18446744073709551615".to_vec()), Some(u64::MAX));
    assert_eq!(parse_decimal(&b"18446744073709551616".to_vec()), None);
    assert_eq!(parse_decimal(&b"99999999999999999999".to_vec()), None);
    assert_eq!(parse_decimal(&b"".to_vec()), None);
    assert_eq!(parse_decimal(&b"12a".to_vec()), None);
    assert_eq!(parse_decimal(&b"-5".to_vec()), None);
    assert_eq!(parse_decimal(&b" 5".to_vec()), None);
}

#[test]
fn parse_round_trip() {
    for n in [0u64, 1, 9, 10, 4096, 1_000_000, u64::MAX] {
        assert_eq!(parse_decimal(&u64_to_decimal(n)), Some(n));
    }
}

#[test]
fn probe_accepts_positive_size() {
    let outcome = evaluate_probe(true, Some(b"1000000".to_vec()));
    assert_eq!(outcome, Ok(1_000_000));
}

#[test]
fn probe_rejects_zero_size_as_empty_resource() {
    let outcome = evaluate_probe(true, Some(b"0".to_vec()));
    assert_eq!(outcome, Err(DownloadError::EmptyResource));
}

#[test]
fn probe_rejects_failed_status_as_protocol_error() {
    let outcome = evaluate_probe(false, Some(b"1000".to_vec()));
    assert!(matches!(outcome, Err(DownloadError::Protocol(_))));
}

#[test]
fn probe_rejects_missing_header_as_protocol_error() {
    let outcome = evaluate_probe(true, None);
    assert!(matches!(outcome, Err(DownloadError::Protocol(_))));
}

#[test]
fn probe_rejects_malformed_header_as_protocol_error() {
    let outcome = evaluate_probe(true, Some(b"12 kb".to_vec()));
    assert!(matches!(outcome, Err(DownloadError::Protocol(_))));
    let outcome = evaluate_probe(true, Some(b"".to_vec()));
    assert!(matches!(outcome, Err(DownloadError::Protocol(_))));
}

#[test]
fn range_header_for_first_million_quarter() {
    assert_eq!(range_header_value(0, 250_000), b"bytes=0-249999".to_vec());
    assert_eq!(range_header_value(750_000, 250_000), b"bytes=750000-999999".to_vec());
}

#[test]
fn range_header_single_byte() {
    assert_eq!(range_header_value(5, 1), b"bytes=5-5".to_vec());
}
