//! The container: four byte segments, each behind its length as an
//! eight-byte big-endian number, in the order grid, color table, norm, abs.
use vstd::prelude::*;
use bytes::Bytes;
use crate::wire::{be_u64, bytes_contents, bytes_from_vec, put_bytes, put_u64};

verus! {

/// The number that eight bytes stand for, most significant byte first.
pub open spec fn be_value(b: Seq<u8>) -> int {
    (b[0] * 0x0100_0000_0000_0000 + b[1] * 0x0001_0000_0000_0000 + b[2] * 0x0000_0100_0000_0000
        + b[3] * 0x0000_0001_0000_0000 + b[4] * 0x0000_0000_0100_0000 + b[5]
        * 0x0000_0000_0001_0000 + b[6] * 0x0000_0000_0000_0100 + b[7]) as int
}

/// A segment behind its length prefix.
pub open spec fn frame(segment: Seq<u8>) -> Seq<u8> {
    be_u64(segment.len() as u64) + segment
}

/// The four segments of a container.
pub struct Segments {
    pub grid: Seq<u8>,
    pub table: Seq<u8>,
    pub norm: Seq<u8>,
    pub abs: Seq<u8>,
}

/// The bytes of a container.
pub open spec fn container(parts: Segments) -> Seq<u8> {
    frame(parts.grid) + frame(parts.table) + frame(parts.norm) + frame(parts.abs)
}

/// The first segment of `data` and the bytes behind it; `None` when the
/// length prefix is incomplete or exceeds the bytes that follow it.
pub open spec fn split_frame(data: Seq<u8>) -> Option<(Seq<u8>, Seq<u8>)> {
    if data.len() < 8 {
        None
    } else if be_value(data.take(8)) > data.len() - 8 {
        None
    } else {
        Some(
            (
                data.subrange(8, 8 + be_value(data.take(8))),
                data.skip(8 + be_value(data.take(8))),
            ),
        )
    }
}

/// The four segments at the start of `data`; `None` when one of the four
/// is missing or cut short. Bytes behind the fourth segment are not read.
pub open spec fn parse_container(data: Seq<u8>) -> Option<Segments> {
    match split_frame(data) {
        None => None,
        Some((grid, rest1)) => match split_frame(rest1) {
            None => None,
            Some((table, rest2)) => match split_frame(rest2) {
                None => None,
                Some((norm, rest3)) => match split_frame(rest3) {
                    None => None,
                    Some((abs, _)) => Some(Segments { grid, table, norm, abs }),
                },
            },
        },
    }
}

/// The eight big-endian bytes of a number stand for that number.
pub proof fn lemma_be_round_trip(n: u64)
    ensures
        be_u64(n).len() == 8,
        be_value(be_u64(n)) == n,
{
    reveal(be_u64);
    let a0 = n as int;
    let a1 = a0 / 256;
    let a2 = a1 / 256;
    let a3 = a2 / 256;
    let a4 = a3 / 256;
    let a5 = a4 / 256;
    let a6 = a5 / 256;
    let a7 = a6 / 256;
    vstd::arithmetic::div_mod::lemma_div_denominator(a0, 256, 256);
    vstd::arithmetic::div_mod::lemma_div_denominator(a0, 0x1_0000, 256);
    vstd::arithmetic::div_mod::lemma_div_denominator(a0, 0x100_0000, 256);
    vstd::arithmetic::div_mod::lemma_div_denominator(a0, 0x1_0000_0000, 256);
    vstd::arithmetic::div_mod::lemma_div_denominator(a0, 0x100_0000_0000, 256);
    vstd::arithmetic::div_mod::lemma_div_denominator(a0, 0x1_0000_0000_0000, 256);
    assert(a0 / 0x1_0000 == a2);
    assert(a0 / 0x100_0000 == a3);
    assert(a0 / 0x1_0000_0000 == a4);
    assert(a0 / 0x100_0000_0000 == a5);
    assert(a0 / 0x1_0000_0000_0000 == a6);
    assert(a0 / 0x100_0000_0000_0000 == a7);
    assert(a7 < 256);
    let b = be_u64(n);
    assert(b[0] == a7);
    assert(b[1] == a6 % 256);
    assert(b[2] == a5 % 256);
    assert(b[3] == a4 % 256);
    assert(b[4] == a3 % 256);
    assert(b[5] == a2 % 256);
    assert(b[6] == a1 % 256);
    assert(b[7] == a0 % 256);
}

/// A framed segment is read back whole, whatever follows it.
pub proof fn lemma_split_frame(segment: Seq<u8>, rest: Seq<u8>)
    requires
        segment.len() <= u64::MAX,
    ensures
        split_frame(frame(segment) + rest) == Some((segment, rest)),
{
    let data = frame(segment) + rest;
    let n = segment.len() as u64;
    lemma_be_round_trip(n);
    assert(data.take(8) =~= be_u64(n));
    assert(data.subrange(8, 8 + n) =~= segment);
    assert(data.skip(8 + n) =~= rest);
}

/// The segments written to a container are the segments read from it,
/// whatever follows the container.
pub proof fn lemma_parse_container(parts: Segments, rest: Seq<u8>)
    requires
        parts.grid.len() <= u64::MAX,
        parts.table.len() <= u64::MAX,
        parts.norm.len() <= u64::MAX,
        parts.abs.len() <= u64::MAX,
    ensures
        parse_container(container(parts) + rest) == Some(parts),
{
    let r3 = frame(parts.abs) + rest;
    let r2 = frame(parts.norm) + r3;
    let r1 = frame(parts.table) + r2;
    assert(container(parts) + rest =~= frame(parts.grid) + r1);
    lemma_split_frame(parts.grid, r1);
    lemma_split_frame(parts.table, r2);
    lemma_split_frame(parts.norm, r3);
    lemma_split_frame(parts.abs, rest);
}

/// The four segments of a container, as byte buffers.
pub struct Parts {
    pub grid: Bytes,
    pub table: Bytes,
    pub norm: Bytes,
    pub abs: Bytes,
}

impl View for Parts {
    type V = Segments;

    open spec fn view(&self) -> Segments {
        Segments {
            grid: bytes_contents(self.grid),
            table: bytes_contents(self.table),
            norm: bytes_contents(self.norm),
            abs: bytes_contents(self.abs),
        }
    }
}

/// The model of optional parts.
pub open spec fn parts_view(r: Option<Parts>) -> Option<Segments> {
    match r {
        Some(p) => Some(p@),
        None => None,
    }
}

/// Writes the container: each segment behind its length.
pub fn write_container(parts: Parts) -> (out: Bytes)
    ensures
        bytes_contents(out) == container(parts@),
        parse_container(bytes_contents(out)) == Some(parts@),
{
    let mut buf: Vec<u8> = Vec::new();
    let ghost model = parts@;
    let Parts { grid, table, norm, abs } = parts;
    put_u64(&mut buf, grid.len() as u64);
    put_bytes(&mut buf, grid);
    put_u64(&mut buf, table.len() as u64);
    put_bytes(&mut buf, table);
    put_u64(&mut buf, norm.len() as u64);
    put_bytes(&mut buf, norm);
    put_u64(&mut buf, abs.len() as u64);
    put_bytes(&mut buf, abs);
    proof {
        assert(buf@ =~= container(model));
        lemma_parse_container(model, Seq::empty());
        assert(container(model) + Seq::<u8>::empty() =~= container(model));
    }
    bytes_from_vec(buf)
}

/// Reads the number that the eight bytes from `at` on stand for.
fn read_length(data: &Vec<u8>, at: usize) -> (n: u64)
    requires
        at + 8 <= data@.len(),
    ensures
        n == be_value(data@.subrange(at as int, at + 8)),
{
    let total = data.len();
    (data[at] as u64) * 0x0100_0000_0000_0000 + (data[at + 1] as u64) * 0x0001_0000_0000_0000 + (
    data[at + 2] as u64) * 0x0000_0100_0000_0000 + (data[at + 3] as u64) * 0x0000_0001_0000_0000
        + (data[at + 4] as u64) * 0x0000_0000_0100_0000 + (data[at + 5] as u64)
        * 0x0000_0000_0001_0000 + (data[at + 6] as u64) * 0x0000_0000_0000_0100 + (data[at
        + 7] as u64)
}

/// Reads the segment that starts at `at`; gives it back with the place
/// behind it.
fn read_frame(data: &Vec<u8>, at: usize) -> (r: Option<(Vec<u8>, usize)>)
    requires
        at <= data@.len(),
    ensures
        match r {
            Some((segment, next)) => at <= next <= data@.len() && split_frame(
                data@.skip(at as int),
            ) == Some((segment@, data@.skip(next as int))),
            None => split_frame(data@.skip(at as int)) is None,
        },
{
    let ghost tail = data@.skip(at as int);
    let left = data.len() - at;
    if left < 8 {
        return None;
    }
    assert(tail.take(8) =~= data@.subrange(at as int, at + 8));
    let n = read_length(data, at);
    if n > (left - 8) as u64 {
        return None;
    }
    let len = n as usize;
    let total = data.len();
    let mut segment: Vec<u8> = Vec::new();
    let mut i: usize = 0;
    while i < len
        invariant
            total == data@.len(),
            at + 8 + len <= data@.len(),
            i <= len,
            segment@ == data@.subrange(at + 8, at + 8 + i),
        decreases len - i,
    {
        segment.push(data[at + 8 + i]);
        i += 1;
        assert(data@.subrange(at + 8, at + 8 + i) =~= data@.subrange(at + 8, at + 8 + i - 1).push(
            data@[at + 8 + i - 1],
        ));
    }
    proof {
        assert(tail.subrange(8, 8 + n) =~= data@.subrange(at + 8, at + 8 + len));
        assert(tail.skip(8 + n) =~= data@.skip(at + 8 + len));
    }
    Some((segment, at + 8 + len))
}

/// Reads the four segments of a container; `None` when a length prefix is
/// incomplete or exceeds the bytes that follow it.
pub fn read_container(data: &Bytes) -> (r: Option<Parts>)
    ensures
        parts_view(r) == parse_container(bytes_contents(*data)),
{
    let raw = crate::wire::bytes_to_vec(data);
    assert(raw@.skip(0) =~= raw@);
    let (grid, at1) = match read_frame(&raw, 0) {
        Some(found) => found,
        None => {
            return None;
        },
    };
    let (table, at2) = match read_frame(&raw, at1) {
        Some(found) => found,
        None => {
            return None;
        },
    };
    let (norm, at3) = match read_frame(&raw, at2) {
        Some(found) => found,
        None => {
            return None;
        },
    };
    let (abs, _) = match read_frame(&raw, at3) {
        Some(found) => found,
        None => {
            return None;
        },
    };
    Some(
        Parts {
            grid: bytes_from_vec(grid),
            table: bytes_from_vec(table),
            norm: bytes_from_vec(norm),
            abs: bytes_from_vec(abs),
        },
    )
}

} // verus!
