use vstd::prelude::*;

use crate::decimal::{all_decimal_digits, decimal_value, parse_decimal};
use crate::errors::DownloadError;

verus! {

/// Whether a content-length header value is an integer size: non-empty,
/// decimal digits only, and small enough for a `u64`.
pub open spec fn parseable_length(header: Seq<u8>) -> bool {
    header.len() >= 1 && all_decimal_digits(header) && decimal_value(header) <= u64::MAX
}

/// Whether the response carried a parseable content-length header at all.
pub open spec fn has_parseable_length(content_length: Option<Vec<u8>>) -> bool {
    match content_length {
        Some(h) => parseable_length(h@),
        None => false,
    }
}

/// The size the content-length header holds; meaningful only when
/// `has_parseable_length` is true.
pub open spec fn header_size(content_length: Option<Vec<u8>>) -> int {
    match content_length {
        Some(h) => decimal_value(h@),
        None => 0,
    }
}

/// Decide the outcome of the size probe from what the metadata response
/// carried: its success flag and the raw bytes of its content-length
/// header, if one was present.
///
/// The probe succeeds exactly when the status was success and the header
/// holds a positive integer size. A non-success status, or a missing or
/// malformed header, is a protocol error; a well-formed size of exactly
/// zero is `EmptyResource`, never a zero-byte success.
pub fn evaluate_probe(status_success: bool, content_length: Option<Vec<u8>>) -> (outcome: Result<
    u64,
    DownloadError,
>)
    ensures
        outcome is Ok <==> (status_success && has_parseable_length(content_length) && header_size(
            content_length,
        ) > 0),
        outcome matches Ok(size) ==> size == header_size(content_length),
        outcome == Err::<u64, DownloadError>(DownloadError::EmptyResource) <==> (status_success
            && has_parseable_length(
            content_length,
        ) && header_size(content_length) == 0),
        !status_success ==> (outcome matches Err(e) && e is Protocol),
        (status_success && !has_parseable_length(content_length)) ==> (outcome matches Err(e)
            && e is Protocol),
{
    if !status_success {
        return Err(DownloadError::Protocol(String::from_str("failed to get content-length")));
    }
    match content_length {
        None => Err(DownloadError::Protocol(String::from_str("failed to parse content-length"))),
        Some(header) => match parse_decimal(&header) {
            None => Err(
                DownloadError::Protocol(String::from_str("failed to parse content-length")),
            ),
            Some(0u64) => Err(DownloadError::EmptyResource),
            Some(size) => Ok(size),
        },
    }
}

} // verus!
