//! What this library takes from flate2 and from std on trust: gzip
//! decompression, UTF-8 validation, and appending a character to a string.
//! Nothing in this module is proved; everything else in the library is
//! proved from the contracts stated here.

use vstd::prelude::*;
use vstd::string::StringSliceAdditionalSpecFns;
use vstd::utf8::valid_utf8;

verus! {

/// The error type of std's I/O traits, carried through as an opaque value.
#[verifier::external_type_specification]
#[verifier::external_body]
pub struct ExIoError(std::io::Error);

/// The error type of std's UTF-8 validation, carried through as an opaque value.
#[verifier::external_type_specification]
#[verifier::external_body]
pub struct ExUtf8Error(core::str::Utf8Error);

/// What reading `body` to its end through `flate2::read::GzDecoder` yields:
/// the decompressed contents of the first gzip member, or `None` where the
/// decoder reports an error.
pub uninterp spec fn gzip_member(body: Seq<u8>) -> Option<Seq<u8>>;

/// Decompresses the first gzip member of `body` with
/// `flate2::read::GzDecoder`, read to its end with `std::io::Read::read_to_end`.
///
/// Trusted: the outcome is a function of the bytes of `body` alone, named
/// `gzip_member`. Nothing more is claimed about what the decoder accepts or
/// produces.
#[verifier::external_body]
pub(crate) fn inflate_gzip(body: &[u8]) -> (r: Result<Vec<u8>, std::io::Error>)
    ensures
        match r {
            Ok(data) => gzip_member(body@) == Some(data@),
            Err(_) => gzip_member(body@) is None,
        },
{
    let mut decoder = flate2::read::GzDecoder::new(body);
    let mut data = Vec::new();
    match std::io::Read::read_to_end(&mut decoder, &mut data) {
        Ok(_) => Ok(data),
        Err(e) => Err(e),
    }
}

/// Reinterprets `data` as text with `core::str::from_utf8`.
///
/// Trusted: the call succeeds exactly on valid UTF-8, and the text it returns
/// consists of the very bytes it was given.
#[verifier::external_body]
pub(crate) fn utf8_text<'a>(data: &'a [u8]) -> (r: Result<&'a str, core::str::Utf8Error>)
    ensures
        r is Ok <==> valid_utf8(data@),
        r matches Ok(text) ==> text.spec_bytes() == data@,
{
    core::str::from_utf8(data)
}

/// `String::push` appends the given character to the end of the string.
pub assume_specification[ String::push ](s: &mut String, ch: char)
    ensures
        final(s)@ == old(s)@.push(ch),
;

} // verus!
