//! The entropy coder: DEFLATE, as the `miniz_oxide` crate implements it.
use vstd::prelude::*;
use bytes::Bytes;
use crate::wire::{bytes_contents, bytes_from_vec, bytes_to_vec};

verus! {

/// The compression level handed to the entropy coder.
pub const DEFLATE_LEVEL: u8 = 6;

/// `miniz_oxide::inflate::DecompressError`, the decoder's reason for
/// rejecting a stream. Its inside is not looked into.
#[verifier::external_type_specification]
#[verifier::external_body]
pub struct ExDecompressError(miniz_oxide::inflate::DecompressError);

/// The DEFLATE stream that the entropy coder writes for `data` at `level`.
pub uninterp spec fn deflated(data: Seq<u8>, level: u8) -> Seq<u8>;

/// The bytes that the entropy decoder reads from `stream`; `None` where it
/// rejects the stream.
pub uninterp spec fn inflated(stream: Seq<u8>) -> Option<Seq<u8>>;

/// `miniz_oxide::deflate::compress_to_vec`: the result is the DEFLATE
/// stream of `data`, and the decoder of the same crate reads `data` back
/// from it. The crate documents levels 0 to 10.
#[verifier::external_body]
fn deflate_vec(data: &Vec<u8>, level: u8) -> (stream: Vec<u8>)
    requires
        level <= 10,
    ensures
        stream@ == deflated(data@, level),
        inflated(stream@) == Some(data@),
{
    miniz_oxide::deflate::compress_to_vec(data, level)
}

/// `miniz_oxide::inflate::decompress_to_vec`: the bytes that the stream
/// decodes to, or the crate's error where it rejects the stream.
#[verifier::external_body]
fn inflate_vec(stream: &Vec<u8>) -> (r: Result<Vec<u8>, miniz_oxide::inflate::DecompressError>)
    ensures
        match r {
            Ok(data) => inflated(stream@) == Some(data@),
            Err(_) => inflated(stream@) is None,
        },
{
    miniz_oxide::inflate::decompress_to_vec(stream)
}

/// The model of an optional byte buffer.
pub open spec fn contents_view(r: Option<Bytes>) -> Option<Seq<u8>> {
    match r {
        Some(b) => Some(bytes_contents(b)),
        None => None,
    }
}

/// Entropy-codes a byte sequence. Decoding the result gives the sequence back.
pub fn comp_data(data: &Bytes) -> (stream: Bytes)
    ensures
        bytes_contents(stream) == deflated(bytes_contents(*data), DEFLATE_LEVEL),
        inflated(bytes_contents(stream)) == Some(bytes_contents(*data)),
{
    let raw = bytes_to_vec(data);
    bytes_from_vec(deflate_vec(&raw, DEFLATE_LEVEL))
}

/// Decodes an entropy-coded byte sequence; `None` where the decoder
/// rejects it.
pub fn dec_comp_data(stream: &Bytes) -> (data: Option<Bytes>)
    ensures
        contents_view(data) == inflated(bytes_contents(*stream)),
{
    let raw = bytes_to_vec(stream);
    match inflate_vec(&raw) {
        Ok(data) => Some(bytes_from_vec(data)),
        Err(_) => None,
    }
}

} // verus!
