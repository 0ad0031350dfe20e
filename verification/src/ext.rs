//! The library's trusted boundary: every call into an outside crate, and the
//! few std conversions vstd gives no specification, stands here behind a
//! contract. Nothing else in the crate is taken on trust.

use vstd::prelude::*;

verus! {

/// Relies on String's FromIterator over char: collects exactly the given
/// characters in order.
#[verifier::external_body]
pub(crate) fn chars_to_string(v: &Vec<char>) -> (r: String)
    ensures
        r@ == v@,
{
    v.iter().collect()
}

/// Relies on core::str::from_utf8: succeeds exactly on valid UTF-8 input and
/// decodes it.
#[verifier::external_body]
pub(crate) fn utf8_to_string(bytes: &[u8]) -> (r: Option<String>)
    ensures
        r is Some <==> vstd::utf8::valid_utf8(bytes@),
        r matches Some(s) ==> s@ == vstd::utf8::decode_utf8(bytes@),
{
    core::str::from_utf8(bytes).ok().map(|s| s.to_string())
}

/// What encoding_rs's lossy decode returns for an encoding (0 UTF-8, 1
/// UTF-16LE, 2 UTF-16BE) and a byte sequence: the decoded text and whether
/// any malformed sequence was replaced, both functions of the two alone.
pub uninterp spec fn decoded_lossy(kind: int, bytes: Seq<u8>) -> (Seq<char>, bool);

/// Relies on encoding_rs's Encoding::decode_without_bom_handling for UTF-8,
/// UTF-16LE and UTF-16BE: best-effort decoding with malformed sequences
/// replaced, and a flag that reports whether any were.
#[verifier::external_body]
pub(crate) fn decode_lossy(kind: u8, bytes: &[u8]) -> (r: (String, bool))
    requires
        kind <= 2,
    ensures
        r.0@ == decoded_lossy(kind as int, bytes@).0,
        r.1 == decoded_lossy(kind as int, bytes@).1,
{
    let enc = match kind {
        0 => encoding_rs::UTF_8,
        1 => encoding_rs::UTF_16LE,
        _ => encoding_rs::UTF_16BE,
    };
    let (cow, had_errors) = enc.decode_without_bom_handling(bytes);
    (cow.into_owned(), had_errors)
}

/// Relies on chrono::Utc::now, formatted with DateTime::to_rfc3339: a
/// non-empty RFC 3339 timestamp; the wall clock decides the value.
#[verifier::external_body]
pub(crate) fn current_time_rfc3339() -> (r: String)
    ensures
        r@.len() > 0,
{
    chrono::Utc::now().to_rfc3339()
}

/// Relies on dirs::home_dir: the user's home directory, when the platform
/// reports one; the environment decides the value.
#[verifier::external_body]
pub(crate) fn home_dir_string() -> (r: Option<String>) {
    dirs::home_dir().map(|p| p.to_string_lossy().into_owned())
}

} // verus!
