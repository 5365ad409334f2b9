//! The byte form of a snapshot: a bincode list of integers, deflated.
use vstd::prelude::*;
use crate::codec::{u64_at, u64_bytes, lemma_u64_at, lemma_u64_round_trip};
use crate::index::{sorted_keys, FrameIndex};

verus! {

#[verifier::external_type_specification]
#[verifier::external_body]
pub struct ExErrorKind(bincode::ErrorKind);

#[verifier::external_type_specification]
#[verifier::external_body]
pub struct ExTINFLStatus(miniz_oxide::inflate::TINFLStatus);

/// Why a snapshot could not be read back.
pub enum BackingFileError {
    /// The bytes did not inflate.
    InflateError(miniz_oxide::inflate::TINFLStatus),
    /// The inflated bytes were not a list of integers.
    External(bincode::Error),
    /// The list did not describe a well-formed structure.
    BadData,
}

/// The bytes of each integer of `v` in turn.
pub open spec fn u64s_bytes(v: Seq<u64>) -> Seq<u8>
    decreases v.len(),
{
    if v.len() == 0 {
        Seq::empty()
    } else {
        u64_bytes(v[0]) + u64s_bytes(v.drop_first())
    }
}

/// bincode's form of a list of integers: its length, then each integer,
/// all as eight little-endian bytes.
pub open spec fn list_bytes(v: Seq<u64>) -> Seq<u8> {
    u64_bytes(v.len() as u64) + u64s_bytes(v)
}

/// The `n` integers at the start of `b`, if `b` is long enough.
pub open spec fn read_u64s(b: Seq<u8>, n: nat) -> Option<Seq<u64>>
    decreases n,
{
    if n == 0 {
        Some(Seq::empty())
    } else if b.len() < 8 {
        None
    } else {
        match read_u64s(b.subrange(8, b.len() as int), (n - 1) as nat) {
            Some(rest) => Some(seq![u64_at(b, 0)] + rest),
            None => None,
        }
    }
}

/// The list that bincode reads from `b`; bytes after it are ignored.
pub open spec fn parse_list(b: Seq<u8>) -> Option<Seq<u64>> {
    if b.len() < 8 {
        None
    } else {
        read_u64s(b.subrange(8, b.len() as int), u64_at(b, 0) as nat)
    }
}

/// Names what `miniz_oxide::deflate::compress_to_vec` makes of `b` at level 3.
pub uninterp spec fn deflated(b: Seq<u8>) -> Seq<u8>;

/// Names what `miniz_oxide::inflate::decompress_to_vec` makes of `b`; `None`
/// where it fails.
pub uninterp spec fn inflated(b: Seq<u8>) -> Option<Seq<u8>>;

/// Relies on `bincode::serialize` (bincode 1: fixed-width little-endian
/// integers, a sequence prefixed by its length as a u64). With no size limit
/// a `Vec<u64>` always serializes.
#[verifier::external_body]
fn bincode_serialize(v: &Vec<u64>) -> (r: Result<Vec<u8>, bincode::Error>)
    ensures
        r is Ok,
        r is Ok ==> r->Ok_0@ == list_bytes(v@),
{
    bincode::serialize(v)
}

/// Relies on `bincode::deserialize` for a `Vec<u64>` (fixed-width
/// little-endian integers, trailing bytes allowed, 64-bit `usize`): it reads
/// a length and then that many integers, and fails if the bytes run out.
#[verifier::external_body]
fn bincode_deserialize(b: &[u8]) -> (r: Result<Vec<u64>, bincode::Error>)
    ensures
        r is Ok <==> parse_list(b@) is Some,
        r is Ok ==> r->Ok_0@ == parse_list(b@)->Some_0,
{
    bincode::deserialize::<Vec<u64>>(b)
}

/// Relies on `miniz_oxide::deflate::compress_to_vec`, which is lossless:
/// `decompress_to_vec` gives its input back.
#[verifier::external_body]
fn deflate(b: &[u8]) -> (r: Vec<u8>)
    ensures
        r@ == deflated(b@),
        inflated(r@) == Some(b@),
{
    miniz_oxide::deflate::compress_to_vec(b, 3)
}

/// Relies on `miniz_oxide::inflate::decompress_to_vec`, with no limit on
/// the output size.
#[verifier::external_body]
fn inflate(b: &[u8]) -> (r: Result<Vec<u8>, miniz_oxide::inflate::TINFLStatus>)
    ensures
        r is Ok <==> inflated(b@) is Some,
        r is Ok ==> inflated(b@) == Some(r->Ok_0@),
{
    miniz_oxide::inflate::decompress_to_vec(b)
}

/// The snapshot bytes of a list of integers.
pub open spec fn list_snapshot(v: Seq<u64>) -> Seq<u8> {
    deflated(list_bytes(v))
}

/// The list that the snapshot bytes `b` hold.
pub open spec fn list_of_snapshot(b: Seq<u8>) -> Option<Seq<u64>> {
    match inflated(b) {
        Some(raw) => parse_list(raw),
        None => None,
    }
}

/// Encodes a list of integers as snapshot bytes.
pub fn encode_list(v: &Vec<u64>) -> (r: Vec<u8>)
    ensures
        r@ == list_snapshot(v@),
        inflated(r@) == Some(list_bytes(v@)),
{
    match bincode_serialize(v) {
        Ok(raw) => deflate(raw.as_slice()),
        Err(_) => {
            assert(false);
            Vec::new()
        },
    }
}

/// Decodes snapshot bytes into a list of integers.
pub fn decode_list(b: &[u8]) -> (r: Result<Vec<u64>, BackingFileError>)
    ensures
        r is Ok <==> list_of_snapshot(b@) is Some,
        r is Ok ==> list_of_snapshot(b@) == Some(r->Ok_0@),
        r matches Err(BackingFileError::InflateError(_)) <==> inflated(b@) is None,
        r matches Err(BackingFileError::External(_)) <==> inflated(b@) is Some && parse_list(
            inflated(b@)->Some_0,
        ) is None,
        !(r matches Err(BackingFileError::BadData)),
{
    match inflate(b) {
        Ok(raw) => match bincode_deserialize(raw.as_slice()) {
            Ok(v) => Ok(v),
            Err(e) => Err(BackingFileError::External(e)),
        },
        Err(e) => Err(BackingFileError::InflateError(e)),
    }
}

/// Reading the bytes of each integer of `v` gives `v` back, whatever follows.
pub proof fn lemma_read_u64s(v: Seq<u64>, rest: Seq<u8>)
    ensures
        read_u64s(u64s_bytes(v) + rest, v.len()) == Some(v),
    decreases v.len(),
{
    if v.len() > 0 {
        let b = u64s_bytes(v) + rest;
        lemma_u64_round_trip(v[0]);
        assert(b =~= u64_bytes(v[0]) + (u64s_bytes(v.drop_first()) + rest));
        assert(b.subrange(0, 8) =~= u64_bytes(v[0]));
        lemma_u64_at(b, 0, v[0]);
        assert(b.subrange(8, b.len() as int) =~= u64s_bytes(v.drop_first()) + rest);
        lemma_read_u64s(v.drop_first(), rest);
        assert(seq![v[0]] + v.drop_first() =~= v);
    }
}

/// bincode reads back the list it wrote.
pub proof fn lemma_list_round_trip(v: Seq<u64>)
    requires
        v.len() <= u64::MAX,
    ensures
        parse_list(list_bytes(v)) == Some(v),
{
    let b = list_bytes(v);
    lemma_u64_round_trip(v.len() as u64);
    assert(b.subrange(0, 8) =~= u64_bytes(v.len() as u64));
    lemma_u64_at(b, 0, v.len() as u64);
    assert(b.subrange(8, b.len() as int) =~= u64s_bytes(v) + Seq::<u8>::empty());
    lemma_read_u64s(v, Seq::empty());
}

/// An index laid flat: each key followed by its value.
pub open spec fn flat_entries(p: Seq<(u64, u64)>) -> Seq<u64> {
    Seq::new(2 * p.len(), |i: int| if i % 2 == 0 { p[i / 2].0 } else { p[i / 2].1 })
}

/// Consecutive integers of `s` paired up.
pub open spec fn paired(s: Seq<u64>) -> Seq<(u64, u64)> {
    Seq::new(s.len() / 2, |i: int| (s[2 * i], s[2 * i + 1]))
}

/// The snapshot bytes of an index.
pub open spec fn index_snapshot(p: Seq<(u64, u64)>) -> Seq<u8> {
    list_snapshot(flat_entries(p))
}

/// The index entries that the snapshot bytes `b` hold, if they form one.
pub open spec fn index_of_snapshot(b: Seq<u8>) -> Option<Seq<(u64, u64)>> {
    match list_of_snapshot(b) {
        Some(s) => if s.len() % 2 == 0 && sorted_keys(paired(s)) {
            Some(paired(s))
        } else {
            None
        },
        None => None,
    }
}

/// The index laid flat: each key followed by its value.
pub fn flatten_index(index: &FrameIndex) -> (r: Vec<u64>)
    ensures
        r@ == flat_entries(index@),
{
    let entries = index.as_slice();
    let n = entries.len();
    let mut flat: Vec<u64> = Vec::new();
    let mut i: usize = 0;
    while i < n
        invariant
            i <= n,
            n == index@.len(),
            entries@ == index@,
            flat@ =~= flat_entries(index@).subrange(0, 2 * i as int),
        decreases n - i,
    {
        let (k, v) = entries[i];
        flat.push(k);
        flat.push(v);
        assert(flat@ =~= flat_entries(index@).subrange(0, 2 * (i + 1) as int));
        i = i + 1;
    }
    assert(flat@ =~= flat_entries(index@));
    flat
}

/// The index that a flat list of keys and values describes: `BadData` when
/// the list has odd length or its keys do not ascend.
pub fn index_from_list(flat: &Vec<u64>) -> (r: Result<FrameIndex, BackingFileError>)
    ensures
        r is Ok <==> flat@.len() % 2 == 0 && sorted_keys(paired(flat@)),
        r is Ok ==> r->Ok_0.wf() && r->Ok_0@ == paired(flat@),
        r is Err ==> r matches Err(BackingFileError::BadData),
{
    let n = flat.len();
    if n % 2 != 0 {
        return Err(BackingFileError::BadData);
    }
    let mut entries: Vec<(u64, u64)> = Vec::new();
    let mut i: usize = 0;
    while i < n / 2
        invariant
            i <= n / 2,
            n == flat@.len(),
            n % 2 == 0,
            entries@ =~= paired(flat@).subrange(0, i as int),
        decreases n / 2 - i,
    {
        entries.push((flat[2 * i], flat[2 * i + 1]));
        assert(entries@ =~= paired(flat@).subrange(0, i + 1));
        i = i + 1;
    }
    assert(entries@ =~= paired(flat@));
    match FrameIndex::from_entries(entries) {
        Some(index) => Ok(index),
        None => Err(BackingFileError::BadData),
    }
}

/// Encodes an index as snapshot bytes.
pub fn encode_index(index: &FrameIndex) -> (r: Vec<u8>)
    ensures
        r@ == index_snapshot(index@),
        inflated(r@) == Some(list_bytes(flat_entries(index@))),
{
    let flat = flatten_index(index);
    encode_list(&flat)
}

/// Decodes snapshot bytes into an index.
pub fn decode_index(b: &[u8]) -> (r: Result<FrameIndex, BackingFileError>)
    ensures
        r is Ok <==> index_of_snapshot(b@) is Some,
        r is Ok ==> r->Ok_0.wf() && index_of_snapshot(b@) == Some(r->Ok_0@),
        r matches Err(BackingFileError::InflateError(_)) <==> inflated(b@) is None,
        r matches Err(BackingFileError::External(_)) <==> list_of_snapshot(b@) is None
            && inflated(b@) is Some,
        r matches Err(BackingFileError::BadData) <==> list_of_snapshot(b@) is Some
            && index_of_snapshot(b@) is None,
{
    match decode_list(b) {
        Ok(flat) => index_from_list(&flat),
        Err(e) => Err(e),
    }
}

/// An index written as a snapshot reads back as the same entries in the
/// same order, wherever the snapshot bytes inflate to what was deflated.
pub proof fn lemma_index_snapshot_round_trip(p: Seq<(u64, u64)>, b: Seq<u8>)
    requires
        sorted_keys(p),
        p.len() <= u64::MAX / 2,
        inflated(b) == Some(list_bytes(flat_entries(p))),
    ensures
        index_of_snapshot(b) == Some(p),
{
    lemma_list_round_trip(flat_entries(p));
    assert(paired(flat_entries(p)) =~= p);
}

} // verus!
