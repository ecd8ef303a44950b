//! Calls into the outside crates that the conversions rest on: base64 for
//! `bytes` fields and chrono for `google.protobuf.Timestamp` text.

use base64::Engine;
use vstd::prelude::*;

verus! {

/// What base64's `STANDARD` engine encodes `bytes` to.
pub uninterp spec fn base64_encode_spec(bytes: Seq<u8>) -> Seq<char>;

/// What base64's `STANDARD` engine decodes `text` to, or the text of its
/// `DecodeError`.
pub uninterp spec fn base64_decode_spec(text: Seq<char>) -> Result<Seq<u8>, Seq<char>>;

/// What chrono's `DateTime::parse_from_rfc3339` reads from `text`: the
/// instant's `timestamp()` and `timestamp_subsec_nanos()`.
pub uninterp spec fn rfc3339_parse_spec(text: Seq<char>) -> Option<(i64, u32)>;

/// What chrono writes for `DateTime::<Utc>::from_timestamp(secs, nanos)`
/// with `to_rfc3339_opts(SecondsFormat::AutoSi, true)` (as many fractional
/// digits as needed, in groups of three, and `Z` for UTC), or `None` where
/// `from_timestamp` gives no instant.
pub uninterp spec fn rfc3339_format_spec(secs: i64, nanos: u32) -> Option<Seq<char>>;

pub open spec fn base64_ok(bytes: Seq<u8>) -> Result<Seq<u8>, Seq<char>> {
    Ok(bytes)
}

/// `base64::engine::general_purpose::STANDARD.encode`. Claimed: the result
/// is a function of the bytes, and it decodes back to them with the same
/// engine. The length bound keeps `encoded_len` from overflowing, where
/// base64 would panic.
#[verifier::external_body]
pub(crate) fn base64_encode(bytes: &Vec<u8>) -> (s: String)
    requires
        bytes@.len() <= usize::MAX / 2,
    ensures
        s@ == base64_encode_spec(bytes@),
        base64_decode_spec(s@) == base64_ok(bytes@),
{
    base64::engine::general_purpose::STANDARD.encode(bytes)
}

/// `base64::engine::general_purpose::STANDARD.decode`, with the error turned
/// into its `to_string` text. Claimed: the outcome is a function of the
/// text.
#[verifier::external_body]
pub(crate) fn base64_decode(text: &str) -> (r: Result<Vec<u8>, String>)
    ensures
        match r {
            Ok(b) => base64_decode_spec(text@) matches Ok(d) && d == b@,
            Err(e) => base64_decode_spec(text@) matches Err(m) && m == e@,
        },
{
    base64::engine::general_purpose::STANDARD.decode(text).map_err(|e| e.to_string())
}

/// `chrono::DateTime::parse_from_rfc3339`, read as seconds since the epoch
/// and nanoseconds. Claimed: the outcome is a function of the text, and the
/// nanoseconds stay below 2,000,000,000 (chrono's `NaiveTime` keeps its
/// fraction below that bound; the upper half is a leap second).
#[verifier::external_body]
pub(crate) fn parse_rfc3339(text: &str) -> (r: Option<(i64, u32)>)
    ensures
        r == rfc3339_parse_spec(text@),
        r matches Some((_, n)) ==> n < 2_000_000_000,
{
    match chrono::DateTime::parse_from_rfc3339(text) {
        Ok(t) => Some((t.timestamp(), t.timestamp_subsec_nanos())),
        Err(_) => None,
    }
}

/// `chrono::DateTime::<Utc>::from_timestamp` followed by
/// `to_rfc3339_opts(SecondsFormat::AutoSi, true)`: fractional digits in
/// groups of three as needed, and `Z` for the UTC offset. Claimed: the
/// outcome is a function of the two numbers; there is no instant where the
/// nanoseconds reach 2,000,000,000 (`from_timestamp` refuses them); and
/// there is one for every second of the years 0001 to 9999 with
/// nanoseconds below 1,000,000,000 (`from_timestamp` returns `None` only
/// for seconds more than about 262,000 years from the epoch and for an
/// invalid nanosecond count). What the text is, is left to the name.
#[verifier::external_body]
pub(crate) fn format_rfc3339(secs: i64, nanos: u32) -> (r: Option<String>)
    ensures
        match r {
            Some(s) => rfc3339_format_spec(secs, nanos) == Some(s@),
            None => rfc3339_format_spec(secs, nanos) is None,
        },
        nanos >= 2_000_000_000 ==> r is None,
        -62135596800 <= secs <= 253402300799 && nanos < 1_000_000_000 ==> r is Some,
{
    chrono::DateTime::<chrono::Utc>::from_timestamp(secs, nanos).map(
        |t| t.to_rfc3339_opts(chrono::SecondsFormat::AutoSi, true),
    )
}

} // verus!
