//! Byte buffers of the `bytes` crate, and what this library relies on of
//! them. Nothing in this file is proved: each contract restates what the
//! crate documents.
use vstd::prelude::*;
use bytes::BufMut;

verus! {

/// `bytes::Bytes`, a shared byte buffer. Its inside is not looked into.
#[verifier::external_type_specification]
#[verifier::external_body]
pub struct ExBytes(bytes::Bytes);

/// The bytes that a `bytes::Bytes` value holds, in order.
pub uninterp spec fn bytes_contents(b: bytes::Bytes) -> Seq<u8>;

/// The eight bytes of `n`, most significant first.
#[verifier::opaque]
pub open spec fn be_u64(n: u64) -> Seq<u8> {
    seq![
        (n / 0x0100_0000_0000_0000) as u8,
        ((n / 0x0001_0000_0000_0000) % 256) as u8,
        ((n / 0x0000_0100_0000_0000) % 256) as u8,
        ((n / 0x0000_0001_0000_0000) % 256) as u8,
        ((n / 0x0000_0000_0100_0000) % 256) as u8,
        ((n / 0x0000_0000_0001_0000) % 256) as u8,
        ((n / 0x0000_0000_0000_0100) % 256) as u8,
        (n % 256) as u8,
    ]
}

/// `Bytes::from(Vec<u8>)`: the buffer holds the bytes of the vector.
#[verifier::external_body]
pub(crate) fn bytes_from_vec(v: Vec<u8>) -> (b: bytes::Bytes)
    ensures
        bytes_contents(b) == v@,
{
    bytes::Bytes::from(v)
}

/// `Bytes` dereferenced to a slice and copied with `to_vec`: the vector
/// holds the bytes of the buffer.
#[verifier::external_body]
pub(crate) fn bytes_to_vec(b: &bytes::Bytes) -> (v: Vec<u8>)
    ensures
        v@ == bytes_contents(*b),
{
    b.to_vec()
}

/// `Bytes::len`: the number of bytes in the buffer.
pub assume_specification[ bytes::Bytes::len ](b: &bytes::Bytes) -> (n: usize)
    ensures
        n == bytes_contents(*b).len(),
;

/// `BufMut::put_u64` on a `Vec<u8>`: appends the eight bytes of `n` in
/// big-endian order.
#[verifier::external_body]
pub(crate) fn put_u64(buf: &mut Vec<u8>, n: u64)
    ensures
        final(buf)@ == old(buf)@ + be_u64(n),
{
    buf.put_u64(n)
}

/// `BufMut::put` on a `Vec<u8>` with a `Bytes` source: appends the bytes
/// of the source.
#[verifier::external_body]
pub(crate) fn put_bytes(buf: &mut Vec<u8>, src: bytes::Bytes)
    ensures
        final(buf)@ == old(buf)@ + bytes_contents(src),
{
    buf.put(src)
}

} // verus!
