//! Flattening lists of three-channel records to scalars and bytes, and back.
use vstd::prelude::*;
use bytes::Bytes;
use crate::wire::{bytes_contents, bytes_from_vec, bytes_to_vec};

verus! {

/// The channels of all records, one record after the other.
pub open spec fn flat<T>(list: Seq<[T; 3]>) -> Seq<T> {
    Seq::new(3 * list.len(), |i: int| list[i / 3][i % 3])
}

/// The records that a flat sequence holds; `None` when its length is not a
/// multiple of three.
pub open spec fn unflat<T>(scalars: Seq<T>) -> Option<Seq<[T; 3]>> {
    if scalars.len() % 3 == 0 {
        Some(
            Seq::new(
                scalars.len() / 3,
                |i: int| [scalars[3 * i], scalars[3 * i + 1], scalars[3 * i + 2]],
            ),
        )
    } else {
        None
    }
}

/// The byte that stands for a signed delta: the delta plus 128.
pub open spec fn bias(d: i8) -> u8 {
    (d + 128) as u8
}

/// The signed delta that a byte stands for.
pub open spec fn unbias(b: u8) -> i8 {
    (b - 128) as i8
}

pub open spec fn biased(deltas: Seq<i8>) -> Seq<u8> {
    Seq::new(deltas.len(), |i: int| bias(deltas[i]))
}

pub open spec fn unbiased(bytes: Seq<u8>) -> Seq<i8> {
    Seq::new(bytes.len(), |i: int| unbias(bytes[i]))
}

/// Reshaping a flattened list gives the list back.
pub proof fn lemma_unflat_flat<T>(list: Seq<[T; 3]>)
    ensures
        unflat(flat(list)) == Some(list),
{
    let back = unflat(flat(list))->0;
    assert(back.len() == list.len());
    assert forall|i: int| 0 <= i < list.len() implies back[i] == list[i] by {
        assert(back[i] =~= list[i]);
    }
    assert(back =~= list);
}

/// Flattening the records of a flat sequence gives the sequence back.
pub proof fn lemma_flat_unflat<T>(scalars: Seq<T>)
    requires
        unflat(scalars) is Some,
    ensures
        flat(unflat(scalars)->0) == scalars,
{
    assert(flat(unflat(scalars)->0) =~= scalars);
}

/// Removing the bias from biased deltas gives the deltas back.
pub proof fn lemma_unbiased_biased(deltas: Seq<i8>)
    ensures
        unbiased(biased(deltas)) == deltas,
{
    assert(unbiased(biased(deltas)) =~= deltas);
}

/// Biasing the deltas that bytes stand for gives the bytes back.
pub proof fn lemma_biased_unbiased(bytes: Seq<u8>)
    ensures
        biased(unbiased(bytes)) == bytes,
{
    assert(biased(unbiased(bytes)) =~= bytes);
}

/// The model of an optional list.
pub open spec fn list_view<T>(r: Option<Vec<[T; 3]>>) -> Option<Seq<[T; 3]>> {
    match r {
        Some(v) => Some(v@),
        None => None,
    }
}

/// Flattens a list of three-channel records to its scalars.
pub fn flatten_list<T: Copy>(list: &Vec<[T; 3]>) -> (scalars: Vec<T>)
    ensures
        scalars@ == flat(list@),
{
    let mut scalars: Vec<T> = Vec::new();
    let mut i: usize = 0;
    while i < list.len()
        invariant
            i <= list@.len(),
            scalars@.len() == 3 * i,
            forall|j: int| 0 <= j < 3 * i ==> scalars@[j] == list@[j / 3][j % 3],
        decreases list@.len() - i,
    {
        let record = &list[i];
        scalars.push(record[0]);
        scalars.push(record[1]);
        scalars.push(record[2]);
        i += 1;
    }
    assert(scalars@ =~= flat(list@));
    scalars
}

/// Reshapes scalars into three-channel records; `None` when their number
/// is not a multiple of three.
pub fn create_list<T: Copy>(scalars: &Vec<T>) -> (list: Option<Vec<[T; 3]>>)
    ensures
        list_view(list) == unflat(scalars@),
{
    if scalars.len() % 3 != 0 {
        return None;
    }
    let total = scalars.len();
    let count = total / 3;
    let mut list: Vec<[T; 3]> = Vec::new();
    let mut i: usize = 0;
    while i < count
        invariant
            scalars@.len() % 3 == 0,
            total == scalars@.len(),
            3 * count == total,
            i <= count,
            list@.len() == i,
            forall|j: int| 0 <= j < i ==> list@[j] == unflat(scalars@)->0[j],
        decreases count - i,
    {
        let record = [scalars[3 * i], scalars[3 * i + 1], scalars[3 * i + 2]];
        list.push(record);
        i += 1;
    }
    assert(list@ =~= unflat(scalars@)->0);
    Some(list)
}

/// A copy of a list of scalars.
pub fn copy_of<T: Copy>(scalars: &Vec<T>) -> (copy: Vec<T>)
    ensures
        copy@ == scalars@,
{
    let mut copy: Vec<T> = Vec::new();
    let mut i: usize = 0;
    while i < scalars.len()
        invariant
            i <= scalars@.len(),
            copy@ == scalars@.take(i as int),
        decreases scalars@.len() - i,
    {
        copy.push(scalars[i]);
        i += 1;
        assert(scalars@.take(i as int) == scalars@.take(i - 1).push(scalars@[i - 1]));
    }
    assert(scalars@.take(i as int) == scalars@);
    copy
}

/// The bytes of unsigned scalars: each scalar is its own byte.
pub fn bytes_list(scalars: &Vec<u8>) -> (b: Bytes)
    ensures
        bytes_contents(b) == scalars@,
{
    bytes_from_vec(copy_of(scalars))
}

/// The bytes of signed deltas: each delta is stored with a bias of 128.
pub fn signed_bytes_list(deltas: &Vec<i8>) -> (b: Bytes)
    ensures
        bytes_contents(b) == biased(deltas@),
{
    let mut bytes: Vec<u8> = Vec::new();
    let mut i: usize = 0;
    while i < deltas.len()
        invariant
            i <= deltas@.len(),
            bytes@.len() == i,
            forall|j: int| 0 <= j < i ==> bytes@[j] == bias(deltas@[j]),
        decreases deltas@.len() - i,
    {
        bytes.push((deltas[i] as i16 + 128) as u8);
        i += 1;
    }
    assert(bytes@ =~= biased(deltas@));
    bytes_from_vec(bytes)
}

/// The unsigned scalars that bytes stand for.
pub fn list_f_bytes(b: &Bytes) -> (scalars: Vec<u8>)
    ensures
        scalars@ == bytes_contents(*b),
{
    bytes_to_vec(b)
}

/// The signed deltas that bytes stand for.
pub fn signed_list_f_bytes(b: &Bytes) -> (deltas: Vec<i8>)
    ensures
        deltas@ == unbiased(bytes_contents(*b)),
{
    let bytes = bytes_to_vec(b);
    let mut deltas: Vec<i8> = Vec::new();
    let mut i: usize = 0;
    while i < bytes.len()
        invariant
            i <= bytes@.len(),
            deltas@.len() == i,
            forall|j: int| 0 <= j < i ==> deltas@[j] == unbias(bytes@[j]),
        decreases bytes@.len() - i,
    {
        deltas.push((bytes[i] as i16 - 128) as i8);
        i += 1;
    }
    assert(deltas@ =~= unbiased(bytes@));
    deltas
}

} // verus!
