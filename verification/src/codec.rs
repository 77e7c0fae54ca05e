//! Decompression of tar-bearing payloads.

use crate::members::Codec;
use std::io::Read;
use vstd::prelude::*;
use vstd::slice::slice_to_vec;

verus! {

/// What `flate2::read::GzDecoder` reads from a gzip stream held in memory,
/// or the text of the error that it reports before the end.
pub uninterp spec fn gzip_decoded(bytes: Seq<u8>) -> Result<Seq<u8>, Seq<char>>;

/// What `xz2::read::XzDecoder` reads from an xz stream held in memory, or
/// the text of the error that it reports before the end.
pub uninterp spec fn xz_decoded(bytes: Seq<u8>) -> Result<Seq<u8>, Seq<char>>;

/// The tar stream that a payload holds under a given transform, or the
/// cause for which it yields none.
pub open spec fn decoded(codec: Codec, payload: Seq<u8>) -> Result<Seq<u8>, Seq<char>> {
    match codec {
        Codec::Identity => Ok(payload),
        Codec::Gzip => gzip_decoded(payload),
        Codec::Xz => xz_decoded(payload),
    }
}

/// The view of a decoded stream or of the cause in its place.
pub open spec fn stream_view(stream: Result<Vec<u8>, String>) -> Result<Seq<u8>, Seq<char>> {
    match stream {
        Ok(tar) => Ok(tar@),
        Err(cause) => Err(cause@),
    }
}

/// `flate2::read::GzDecoder::new` over the bytes, read to the end; an
/// error is handed on as its text.
#[verifier::external_body]
fn gunzip(bytes: &[u8]) -> (r: Result<Vec<u8>, String>)
    ensures
        stream_view(r) == gzip_decoded(bytes@),
{
    let mut out = Vec::new();
    match flate2::read::GzDecoder::new(bytes).read_to_end(&mut out) {
        Ok(_) => Ok(out),
        Err(e) => Err(e.to_string()),
    }
}

/// `xz2::read::XzDecoder::new` over the bytes, read to the end; an error
/// is handed on as its text.
#[verifier::external_body]
fn unxz(bytes: &[u8]) -> (r: Result<Vec<u8>, String>)
    ensures
        stream_view(r) == xz_decoded(bytes@),
{
    let mut out = Vec::new();
    match xz2::read::XzDecoder::new(bytes).read_to_end(&mut out) {
        Ok(_) => Ok(out),
        Err(e) => Err(e.to_string()),
    }
}

/// Applies the transform to a payload, giving the tar stream it holds or
/// the cause for which it holds none.
pub fn decode(codec: Codec, payload: &[u8]) -> (r: Result<Vec<u8>, String>)
    ensures
        stream_view(r) == decoded(codec, payload@),
{
    match codec {
        Codec::Identity => Ok(slice_to_vec(payload)),
        Codec::Gzip => gunzip(payload),
        Codec::Xz => unxz(payload),
    }
}

} // verus!
