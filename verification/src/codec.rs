//! The codecs that the metadata passes through on its way to JSON:
//! zstandard, UTF-8 and base64.
//!
//! The codecs are outside code. Nothing in this module is proved: each
//! contract is a claim about the function it names.

use vstd::prelude::*;
use vstd::string::StringSliceAdditionalSpecFns;
use vstd::utf8::valid_utf8;

verus! {

/// `std::io::Error`, of which nothing is known.
#[verifier::external_type_specification]
#[verifier::external_body]
pub struct ExIoError(std::io::Error);

/// `core::str::Utf8Error`, of which nothing is known.
#[verifier::external_type_specification]
#[verifier::external_body]
pub struct ExUtf8Error(core::str::Utf8Error);

/// `base64::DecodeError`, of which nothing is known.
#[verifier::external_type_specification]
#[verifier::external_body]
pub struct ExDecodeError(base64::DecodeError);

/// What a zstandard decoder emits for a complete input; `None` where the
/// decoder rejects the input.
pub uninterp spec fn zstd_decoded(frames: Seq<u8>) -> Option<Seq<u8>>;

/// The bytes that a text in standard, padded base64 encodes; `None` where the
/// text is not such an encoding.
pub uninterp spec fn base64_decoded(text: Seq<char>) -> Option<Seq<u8>>;

/// Calls `zstd::decode_all` on a byte slice.
///
/// Claimed: whether the decoder accepts the input, and what it emits, depend
/// on the bytes alone. The contract names the output `zstd_decoded(frames)`.
#[verifier::external_body]
pub(crate) fn zstd_decode(frames: &[u8]) -> (r: Result<Vec<u8>, std::io::Error>)
    ensures
        match r {
            Ok(bytes) => zstd_decoded(frames@) == Some(bytes@),
            Err(_) => zstd_decoded(frames@) is None,
        },
{
    zstd::decode_all(frames)
}

/// Calls `decode` of `base64`'s `STANDARD` engine.
///
/// Claimed: whether the text is accepted, and the bytes that come out, depend
/// on the text alone. The contract names the bytes `base64_decoded(text)`.
#[verifier::external_body]
pub(crate) fn base64_decode(text: &str) -> (r: Result<Vec<u8>, base64::DecodeError>)
    ensures
        match r {
            Ok(bytes) => base64_decoded(text@) == Some(bytes@),
            Err(_) => base64_decoded(text@) is None,
        },
{
    base64::Engine::decode(&base64::engine::general_purpose::STANDARD, text)
}

/// `core::str::from_utf8`.
///
/// Claimed: it succeeds exactly on well-formed UTF-8, and then returns the
/// same bytes as a string slice.
pub assume_specification<'a>[ core::str::from_utf8 ](bytes: &'a [u8]) -> (r: Result<
    &'a str,
    core::str::Utf8Error,
>)
    ensures
        r is Ok <==> valid_utf8(bytes@),
        r matches Ok(text) ==> text.spec_bytes() == bytes@,
;

} // verus!
