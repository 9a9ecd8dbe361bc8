//! Tile payloads as they arrive from the tile backend: gzip-compressed or plain.
use vstd::prelude::*;

use crate::text::{chars_of, push_chars, push_str, string_from_chars};

verus! {

/// What gzip decompression yields for `data`: the decompressed bytes, or nothing where
/// `data` is not a valid gzip stream.
pub uninterp spec fn gzip_decoded(data: Seq<u8>) -> Option<Seq<u8>>;

/// Trusted: reads a `flate2::read::GzDecoder` over `data` to the end. The contract names
/// the result: the same input always gives the same bytes or the same failure. The text of
/// the I/O error is not described.
#[verifier::external_body]
fn gunzip(data: &[u8]) -> (r: Result<Vec<u8>, String>)
    ensures
        match r {
            Ok(v) => gzip_decoded(data@) == Some(v@),
            Err(_) => gzip_decoded(data@) is None,
        },
{
    let mut decoder = flate2::read::GzDecoder::new(data);
    let mut out = Vec::new();
    match std::io::Read::read_to_end(&mut decoder, &mut out) {
        Ok(_) => Ok(out),
        Err(error) => Err(error.to_string()),
    }
}

/// A tile payload that could not be decompressed.
#[derive(Debug, PartialEq, Eq)]
pub struct TileBytesError {
    /// Where the payload came from.
    pub label: String,
    /// What the decompressor reported.
    pub cause: String,
}

impl TileBytesError {
    /// The message of this error.
    pub fn message(&self) -> (m: String)
        ensures
            m@ == "failed to decompress gzip tile "@ + self.label@,
    {
        let mut out: Vec<char> = Vec::new();
        push_str(&mut out, "failed to decompress gzip tile ");
        let l = chars_of(self.label.as_str());
        push_chars(&mut out, l.as_slice());
        string_from_chars(out.as_slice())
    }
}

/// Whether a payload starts with the gzip magic bytes.
pub open spec fn is_gzip(bytes: Seq<u8>) -> bool {
    bytes.len() >= 2 && bytes[0] == 0x1f && bytes[1] == 0x8b
}

/// Decompresses a gzip payload and hands any other payload back as it is.
pub fn decode_tile_bytes(label: &str, bytes: Vec<u8>) -> (r: Result<Vec<u8>, TileBytesError>)
    ensures
        match r {
            Ok(v) => if is_gzip(bytes@) {
                gzip_decoded(bytes@) == Some(v@)
            } else {
                v@ == bytes@
            },
            Err(e) => is_gzip(bytes@) && gzip_decoded(bytes@) is None && e.label@ == label@,
        },
{
    if bytes.len() >= 2 && bytes[0] == 0x1f && bytes[1] == 0x8b {
        match gunzip(bytes.as_slice()) {
            Ok(out) => Ok(out),
            Err(cause) => {
                let l = chars_of(label);
                Err(TileBytesError { label: string_from_chars(l.as_slice()), cause })
            },
        }
    } else {
        Ok(bytes)
    }
}

} // verus!
