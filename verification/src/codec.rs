//! The SPLAT byte format: a headerless run of 32-byte records.
//!
//! Each record is six little-endian 32-bit words (position, then scale)
//! followed by four colour bytes and four rotation bytes.

use crate::splat::SplatPoint;
use vstd::prelude::*;

verus! {

/// Number of bytes in one record.
pub const RECORD_SIZE: usize = 32;

/// A buffer whose length is not a whole number of records.
#[derive(Debug, Clone, Copy, PartialEq, Eq, Structural)]
pub struct FormatError {
    /// Length of the rejected buffer, in bytes.
    pub size: usize,
}

/// The four bytes of a word, least significant first.
pub open spec fn word_bytes(w: u32) -> Seq<u8> {
    seq![
        (w & 0xff) as u8,
        ((w >> 8) & 0xff) as u8,
        ((w >> 16) & 0xff) as u8,
        ((w >> 24) & 0xff) as u8,
    ]
}

/// The word whose little-endian bytes are `b0, b1, b2, b3`.
pub open spec fn word_of(b0: u8, b1: u8, b2: u8, b3: u8) -> u32 {
    (b0 as u32) | ((b1 as u32) << 8) | ((b2 as u32) << 16) | ((b3 as u32) << 24)
}

/// The 32 bytes of one record.
pub open spec fn record_bytes(p: SplatPoint) -> Seq<u8> {
    word_bytes(p.pos[0]) + word_bytes(p.pos[1]) + word_bytes(p.pos[2])
        + word_bytes(p.scale[0]) + word_bytes(p.scale[1]) + word_bytes(p.scale[2])
        + p.color@ + p.rot@
}

/// The word stored at offset `at` of `b`.
pub open spec fn word_at(b: Seq<u8>, at: int) -> u32 {
    word_of(b[at], b[at + 1], b[at + 2], b[at + 3])
}

/// The record stored in the 32 bytes of `b` that start at offset `at`.
pub open spec fn record_at(b: Seq<u8>, at: int) -> SplatPoint {
    SplatPoint {
        pos: [word_at(b, at), word_at(b, at + 4), word_at(b, at + 8)],
        scale: [word_at(b, at + 12), word_at(b, at + 16), word_at(b, at + 20)],
        color: [b[at + 24], b[at + 25], b[at + 26], b[at + 27]],
        rot: [b[at + 28], b[at + 29], b[at + 30], b[at + 31]],
    }
}

/// The byte image of a sequence of records: their images one after another.
pub open spec fn encode(points: Seq<SplatPoint>) -> Seq<u8> {
    Seq::new(32 * points.len(), |i: int| record_bytes(points[i / 32])[i % 32])
}

/// The records held by a buffer; a trailing partial record is not one.
pub open spec fn decode(bytes: Seq<u8>) -> Seq<SplatPoint> {
    Seq::new((bytes.len() / 32) as nat, |k: int| record_at(bytes, 32 * k))
}

/// A word is recovered from its four bytes.
pub proof fn lemma_word_round_trip(w: u32)
    ensures
        word_bytes(w).len() == 4,
        word_at(word_bytes(w), 0) == w,
{
    assert(((w & 0xff) as u8 as u32) | (((w >> 8) & 0xff) as u8 as u32) << 8 | (((w >> 16)
        & 0xff) as u8 as u32) << 16 | (((w >> 24) & 0xff) as u8 as u32) << 24 == w)
        by (bit_vector);
}

/// Four bytes are recovered from the word they spell.
pub proof fn lemma_bytes_round_trip(b0: u8, b1: u8, b2: u8, b3: u8)
    ensures
        word_bytes(word_of(b0, b1, b2, b3)) == seq![b0, b1, b2, b3],
{
    let w = word_of(b0, b1, b2, b3);
    assert((w & 0xff) as u8 == b0 && ((w >> 8) & 0xff) as u8 == b1 && ((w >> 16) & 0xff) as u8
        == b2 && ((w >> 24) & 0xff) as u8 == b3) by (bit_vector)
        requires
            w == (b0 as u32) | ((b1 as u32) << 8) | ((b2 as u32) << 16) | ((b3 as u32) << 24),
    ;
    assert(word_bytes(w) =~= seq![b0, b1, b2, b3]);
}

/// A record's image is 32 bytes long.
pub proof fn lemma_record_len(p: SplatPoint)
    ensures
        record_bytes(p).len() == 32,
{
}

/// Appending a record appends its image.
pub proof fn lemma_encode_push(points: Seq<SplatPoint>, p: SplatPoint)
    ensures
        encode(points.push(p)) == encode(points) + record_bytes(p),
{
    let n = points.len() as int;
    let whole = encode(points.push(p));
    let parts = encode(points) + record_bytes(p);
    assert(whole.len() == parts.len());
    assert forall|i: int| 0 <= i < whole.len() implies whole[i] == parts[i] by {
        if i < 32 * n {
            assert(i / 32 < n);
            assert(points.push(p)[i / 32] == points[i / 32]);
        } else {
            assert(i / 32 == n);
            assert(i % 32 == i - 32 * n);
            assert(points.push(p)[i / 32] == p);
        }
    }
    assert(whole =~= parts);
}

/// A record is recovered from its own image.
pub proof fn lemma_record_round_trip(p: SplatPoint)
    ensures
        record_at(record_bytes(p), 0) == p,
{
    let b = record_bytes(p);
    lemma_word_round_trip(p.pos[0]);
    lemma_word_round_trip(p.pos[1]);
    lemma_word_round_trip(p.pos[2]);
    lemma_word_round_trip(p.scale[0]);
    lemma_word_round_trip(p.scale[1]);
    lemma_word_round_trip(p.scale[2]);
    let q = record_at(b, 0);
    assert(q.pos =~= p.pos);
    assert(q.scale =~= p.scale);
    assert(q.color =~= p.color);
    assert(q.rot =~= p.rot);
}

/// The image of a record read from 32 bytes is those 32 bytes.
pub proof fn lemma_image_round_trip(b: Seq<u8>, at: int)
    requires
        0 <= at,
        at + 32 <= b.len(),
    ensures
        record_bytes(record_at(b, at)) == b.subrange(at, at + 32),
{
    lemma_bytes_round_trip(b[at], b[at + 1], b[at + 2], b[at + 3]);
    lemma_bytes_round_trip(b[at + 4], b[at + 5], b[at + 6], b[at + 7]);
    lemma_bytes_round_trip(b[at + 8], b[at + 9], b[at + 10], b[at + 11]);
    lemma_bytes_round_trip(b[at + 12], b[at + 13], b[at + 14], b[at + 15]);
    lemma_bytes_round_trip(b[at + 16], b[at + 17], b[at + 18], b[at + 19]);
    lemma_bytes_round_trip(b[at + 20], b[at + 21], b[at + 22], b[at + 23]);
    assert(record_bytes(record_at(b, at)) =~= b.subrange(at, at + 32));
}

/// Serialising `n` records gives exactly `32 * n` bytes, and reading them
/// back gives the same records: nothing is lost or altered on the way
/// through the byte format, for any sequence, the empty one included.
pub proof fn lemma_decode_encode(points: Seq<SplatPoint>)
    ensures
        encode(points).len() == 32 * points.len(),
        decode(encode(points)) == points,
{
    let b = encode(points);
    assert(decode(b).len() == points.len());
    assert forall|k: int| 0 <= k < points.len() implies decode(b)[k] == points[k] by {
        let p = points[k];
        let img = record_bytes(p);
        lemma_record_round_trip(p);
        assert forall|j: int| 0 <= j < 32 implies b[32 * k + j] == img[j] by {
            assert((32 * k + j) / 32 == k);
            assert((32 * k + j) % 32 == j);
        }
        let q = record_at(b, 32 * k);
        let r = record_at(img, 0);
        assert(q.pos =~= r.pos);
        assert(q.scale =~= r.scale);
        assert(q.color =~= r.color);
        assert(q.rot =~= r.rot);
    }
    assert(decode(b) =~= points);
}

/// Every buffer that holds a whole number of records is the image of the
/// records read from it.
pub proof fn lemma_encode_decode(bytes: Seq<u8>)
    requires
        bytes.len() % 32 == 0,
    ensures
        encode(decode(bytes)) == bytes,
{
    let points = decode(bytes);
    let b = encode(points);
    assert(b.len() == bytes.len());
    assert forall|i: int| 0 <= i < b.len() implies b[i] == bytes[i] by {
        let k = i / 32;
        lemma_image_round_trip(bytes, 32 * k);
        assert(bytes.subrange(32 * k, 32 * k + 32)[i % 32] == bytes[i]);
    }
    assert(b =~= bytes);
}

/// Appends the little-endian bytes of `w`.
fn push_word(out: &mut Vec<u8>, w: u32)
    ensures
        final(out)@ == old(out)@ + word_bytes(w),
{
    proof {
        assert(w & 0xff < 256 && (w >> 8) & 0xff < 256 && (w >> 16) & 0xff < 256 && (w >> 24)
            & 0xff < 256) by (bit_vector);
    }
    out.push((w & 0xff) as u8);
    out.push(((w >> 8) & 0xff) as u8);
    out.push(((w >> 16) & 0xff) as u8);
    out.push(((w >> 24) & 0xff) as u8);
    assert(out@ =~= old(out)@ + word_bytes(w));
}

/// Appends the image of one record.
fn push_record(out: &mut Vec<u8>, p: &SplatPoint)
    ensures
        final(out)@ == old(out)@ + record_bytes(*p),
{
    push_word(out, p.pos[0]);
    push_word(out, p.pos[1]);
    push_word(out, p.pos[2]);
    push_word(out, p.scale[0]);
    push_word(out, p.scale[1]);
    push_word(out, p.scale[2]);
    out.push(p.color[0]);
    out.push(p.color[1]);
    out.push(p.color[2]);
    out.push(p.color[3]);
    out.push(p.rot[0]);
    out.push(p.rot[1]);
    out.push(p.rot[2]);
    out.push(p.rot[3]);
    assert(out@ =~= old(out)@ + record_bytes(*p));
}

/// Lays the records out as bytes, 32 per record, in order.
pub fn splats_to_bytes(splats: &[SplatPoint]) -> (bytes: Vec<u8>)
    ensures
        bytes@ == encode(splats@),
        bytes@.len() == 32 * splats@.len(),
{
    let mut bytes: Vec<u8> = Vec::new();
    let mut i: usize = 0;
    assert(bytes@ =~= encode(splats@.take(0)));
    while i < splats.len()
        invariant
            i <= splats.len(),
            bytes@ == encode(splats@.take(i as int)),
        decreases splats.len() - i,
    {
        push_record(&mut bytes, &splats[i]);
        proof {
            lemma_encode_push(splats@.take(i as int), splats@[i as int]);
            assert(splats@.take(i as int).push(splats@[i as int]) =~= splats@.take(i + 1));
        }
        i += 1;
    }
    assert(splats@.take(i as int) =~= splats@);
    bytes
}

/// Reads the little-endian word at offset `at`.
fn read_word(data: &[u8], at: usize) -> (w: u32)
    requires
        at + 4 <= data.len(),
    ensures
        w == word_at(data@, at as int),
{
    let b0: u32 = data[at] as u32;
    let b1: u32 = data[at + 1] as u32;
    let b2: u32 = data[at + 2] as u32;
    let b3: u32 = data[at + 3] as u32;
    b0 | (b1 << 8) | (b2 << 16) | (b3 << 24)
}

/// Reads the record that starts at offset `at`.
fn read_record(data: &[u8], at: usize) -> (p: SplatPoint)
    requires
        at + 32 <= data.len(),
    ensures
        p == record_at(data@, at as int),
{
    SplatPoint {
        pos: [read_word(data, at), read_word(data, at + 4), read_word(data, at + 8)],
        scale: [read_word(data, at + 12), read_word(data, at + 16), read_word(data, at + 20)],
        color: [data[at + 24], data[at + 25], data[at + 26], data[at + 27]],
        rot: [data[at + 28], data[at + 29], data[at + 30], data[at + 31]],
    }
}

/// Number of records in a SPLAT buffer.
///
/// A buffer whose length is not a multiple of 32 is rejected, with its
/// length in the error.
pub fn get_splat_count(splat_data: &[u8]) -> (r: Result<usize, FormatError>)
    ensures
        splat_data@.len() % 32 == 0 ==> r == Ok::<usize, FormatError>(
            (splat_data@.len() / 32) as usize,
        ),
        splat_data@.len() % 32 != 0 ==> r == Err::<usize, FormatError>(
            (FormatError { size: splat_data.len() }),
        ),
{
    if splat_data.len() % RECORD_SIZE != 0 {
        Err(FormatError { size: splat_data.len() })
    } else {
        Ok(splat_data.len() / RECORD_SIZE)
    }
}

/// Reads a SPLAT buffer back into records.
///
/// A buffer whose length is not a multiple of 32 is rejected before any byte
/// is interpreted; any other buffer yields its records in order.
pub fn parse_splat_data(splat_data: &[u8]) -> (r: Result<Vec<SplatPoint>, FormatError>)
    ensures
        splat_data@.len() % 32 == 0 ==> r is Ok && r->Ok_0@ == decode(splat_data@),
        splat_data@.len() % 32 != 0 ==> r == Err::<Vec<SplatPoint>, FormatError>(
            (FormatError { size: splat_data.len() }),
        ),
{
    if splat_data.len() % RECORD_SIZE != 0 {
        return Err(FormatError { size: splat_data.len() });
    }
    let count: usize = splat_data.len() / RECORD_SIZE;
    let mut splats: Vec<SplatPoint> = Vec::new();
    let mut k: usize = 0;
    let mut at: usize = 0;
    while k < count
        invariant
            k <= count,
            at == 32 * k,
            count == splat_data@.len() / 32,
            splats@ == decode(splat_data@).take(k as int),
        decreases count - k,
    {
        assert(at + 32 <= splat_data.len());
        let p = read_record(splat_data, at);
        splats.push(p);
        assert(splats@ =~= decode(splat_data@).take(k + 1));
        k += 1;
        at += RECORD_SIZE;
    }
    assert(decode(splat_data@).take(k as int) =~= decode(splat_data@));
    Ok(splats)
}

} // verus!
