//! Big-endian primitive reads and the modified-UTF-8 text decoder.
//!
//! Every read takes the whole input and a position, and returns the value
//! together with the position just past it.

use vstd::prelude::*;

verus! {

/// Why a dump could not be decoded.
#[derive(Debug, Clone, Copy, PartialEq, Eq, Structural)]
pub enum ParseError {
    /// The input ended in the middle of a value.
    UnexpectedEof,
    /// The banner is not `JAVA PROFILE 1.0.2`.
    UnsupportedVersion,
    /// The identifier size is not 8.
    UnsupportedIdentifierSize(u32),
    /// The capture time cannot be represented as a date.
    InvalidTimestamp(i64),
    /// Unknown record tag.
    BadTag(u8),
    /// Unknown sub-record tag.
    UnknownSubTag(u8),
    /// Unknown type byte of a static field.
    BadFieldType(u8),
    /// Unknown element type of a primitive array.
    BadArrayType(u8),
    /// A text payload is not valid UTF-8 once `C0 80` pairs are folded.
    BadUtf8,
    /// A string record is shorter than the identifier it must hold.
    BadRecordLength(u32),
    /// The sub-records of a heap dump segment run past its declared length.
    SegmentOverrun,
}

/// `n` bytes are available at position `p` of `d`.
pub open spec fn avail(d: Seq<u8>, p: int, n: int) -> bool {
    0 <= p && 0 <= n && p + n <= d.len()
}

pub open spec fn be_u16(d: Seq<u8>, p: int) -> u16 {
    (d[p] as int * 0x100 + d[p + 1] as int) as u16
}

pub open spec fn be_u32(d: Seq<u8>, p: int) -> u32 {
    (d[p] as int * 0x100_0000 + d[p + 1] as int * 0x1_0000 + d[p + 2] as int * 0x100
        + d[p + 3] as int) as u32
}

pub open spec fn be_u64(d: Seq<u8>, p: int) -> u64 {
    (be_u32(d, p) as int * 0x1_0000_0000 + be_u32(d, p + 4) as int) as u64
}

pub open spec fn be_i32(d: Seq<u8>, p: int) -> i32 {
    be_u32(d, p) as i32
}

/// The outcome of a read of `n` bytes at `p` that yields `v` when they are there.
pub open spec fn fixed_read<T>(d: Seq<u8>, p: int, n: int, v: T) -> Result<(T, int), ParseError> {
    if avail(d, p, n) {
        Ok((v, p + n))
    } else {
        Err(ParseError::UnexpectedEof)
    }
}

/// An executable read agrees with its specification.
pub open spec fn read_agrees<T>(r: Result<(T, usize), ParseError>, s: Result<(T, int), ParseError>) -> bool {
    match (r, s) {
        (Ok((v, q)), Ok((sv, sq))) => v == sv && q as int == sq,
        (Err(e), Err(se)) => e == se,
        _ => false,
    }
}

/// An executable decode agrees with its specification: the same error, or a value
/// whose view is the specified one and the same end position.
pub open spec fn parsed_as<T: View>(r: Result<(T, usize), ParseError>, s: Result<(T::V, int), ParseError>) -> bool {
    match (r, s) {
        (Ok((v, q)), Ok((sv, sq))) => v@ == sv && q as int == sq,
        (Err(e), Err(se)) => e == se,
        _ => false,
    }
}

/// The big-endian bytes of a 16-bit value.
pub open spec fn u16_be_bytes(x: u16) -> Seq<u8> {
    seq![(x / 0x100) as u8, (x % 0x100) as u8]
}

/// The big-endian bytes of a 32-bit value.
pub open spec fn u32_be_bytes(x: u32) -> Seq<u8> {
    seq![
        (x / 0x100_0000) as u8,
        ((x / 0x1_0000) % 0x100) as u8,
        ((x / 0x100) % 0x100) as u8,
        (x % 0x100) as u8,
    ]
}

/// The big-endian bytes of a 64-bit value.
pub open spec fn u64_be_bytes(x: u64) -> Seq<u8> {
    u32_be_bytes((x / 0x1_0000_0000) as u32) + u32_be_bytes((x % 0x1_0000_0000) as u32)
}

/// Reading back the big-endian bytes of a 16-bit value gives the value.
pub proof fn lemma_u16_round_trip(x: u16, d: Seq<u8>, p: int)
    requires
        0 <= p && p + 2 <= d.len(),
        d.subrange(p, p + 2) == u16_be_bytes(x),
    ensures
        be_u16(d, p) == x,
{
    assert(d[p] == d.subrange(p, p + 2)[0] && d[p + 1] == d.subrange(p, p + 2)[1]);
}

/// Reading back the big-endian bytes of a 32-bit value gives the value.
pub proof fn lemma_u32_round_trip(x: u32, d: Seq<u8>, p: int)
    requires
        0 <= p && p + 4 <= d.len(),
        d.subrange(p, p + 4) == u32_be_bytes(x),
    ensures
        be_u32(d, p) == x,
{
    let w = d.subrange(p, p + 4);
    assert(d[p] == w[0] && d[p + 1] == w[1] && d[p + 2] == w[2] && d[p + 3] == w[3]);
    let a = x as int / 0x100;
    let b = a / 0x100;
    assert(x as int == a * 0x100 + x as int % 0x100);
    assert(a == b * 0x100 + a % 0x100);
    assert(b == (b / 0x100) * 0x100 + b % 0x100);
    assert(b / 0x100 == x as int / 0x100_0000);
    assert(b == x as int / 0x1_0000);
}

/// Reading back the big-endian bytes of a 64-bit value gives the value.
pub proof fn lemma_u64_round_trip(x: u64, d: Seq<u8>, p: int)
    requires
        0 <= p && p + 8 <= d.len(),
        d.subrange(p, p + 8) == u64_be_bytes(x),
    ensures
        be_u64(d, p) == x,
{
    let hi = (x / 0x1_0000_0000) as u32;
    let lo = (x % 0x1_0000_0000) as u32;
    assert(d.subrange(p, p + 4) =~= d.subrange(p, p + 8).subrange(0, 4));
    assert(d.subrange(p + 4, p + 8) =~= d.subrange(p, p + 8).subrange(4, 8));
    assert(u64_be_bytes(x).subrange(0, 4) =~= u32_be_bytes(hi));
    assert(u64_be_bytes(x).subrange(4, 8) =~= u32_be_bytes(lo));
    lemma_u32_round_trip(hi, d, p);
    lemma_u32_round_trip(lo, d, p + 4);
}

pub(crate) fn get_u16(data: &[u8], pos: usize) -> (r: u16)
    requires
        avail(data@, pos as int, 2),
    ensures
        r == be_u16(data@, pos as int),
{
    (data[pos] as u16) * 0x100 + data[pos + 1] as u16
}

pub(crate) fn get_u32(data: &[u8], pos: usize) -> (r: u32)
    requires
        avail(data@, pos as int, 4),
    ensures
        r == be_u32(data@, pos as int),
{
    (data[pos] as u32) * 0x100_0000 + (data[pos + 1] as u32) * 0x1_0000 + (data[pos + 2] as u32)
        * 0x100 + data[pos + 3] as u32
}

pub(crate) fn get_u64(data: &[u8], pos: usize) -> (r: u64)
    requires
        avail(data@, pos as int, 8),
    ensures
        r == be_u64(data@, pos as int),
{
    proof {
        assert(data@.len() == data.len());
    }
    let hi = get_u32(data, pos);
    let lo = get_u32(data, pos + 4);
    (hi as u64) * 0x1_0000_0000 + lo as u64
}

/// Whether `n` bytes are available at `pos`.
pub(crate) fn available(data: &[u8], pos: usize, n: u64) -> (r: bool)
    ensures
        r == avail(data@, pos as int, n as int),
        data@.len() <= usize::MAX,
{
    proof {
        assert(data@.len() == data.len());
    }
    pos <= data.len() && (data.len() - pos) as u64 >= n
}

/// Reads the `n` bytes at `pos` verbatim.
pub fn read_bytes(data: &[u8], pos: usize, n: usize) -> (r: Result<(Vec<u8>, usize), ParseError>)
    ensures
        parsed_as(r, fixed_read(data@, pos as int, n as int, data@.subrange(pos as int, pos + n))),
{
    if pos > data.len() || data.len() - pos < n {
        return Err(ParseError::UnexpectedEof);
    }
    let end = pos + n;
    let mut out: Vec<u8> = Vec::new();
    let mut i: usize = pos;
    while i < end
        invariant
            pos <= i <= end,
            end == pos + n,
            end <= data@.len(),
            out@ == data@.subrange(pos as int, i as int),
        decreases end - i,
    {
        out.push(data[i]);
        proof {
            assert(out@ =~= data@.subrange(pos as int, i + 1));
        }
        i = i + 1;
    }
    Ok((out, end))
}

pub fn read_u8(data: &[u8], pos: usize) -> (r: Result<(u8, usize), ParseError>)
    ensures
        read_agrees(r, fixed_read(data@, pos as int, 1, data@[pos as int])),
{
    if pos < data.len() {
        Ok((data[pos], pos + 1))
    } else {
        Err(ParseError::UnexpectedEof)
    }
}

pub fn read_u16(data: &[u8], pos: usize) -> (r: Result<(u16, usize), ParseError>)
    ensures
        read_agrees(r, fixed_read(data@, pos as int, 2, be_u16(data@, pos as int))),
{
    if pos <= data.len() && data.len() - pos >= 2 {
        Ok((get_u16(data, pos), pos + 2))
    } else {
        Err(ParseError::UnexpectedEof)
    }
}

pub fn read_u32(data: &[u8], pos: usize) -> (r: Result<(u32, usize), ParseError>)
    ensures
        read_agrees(r, fixed_read(data@, pos as int, 4, be_u32(data@, pos as int))),
{
    if pos <= data.len() && data.len() - pos >= 4 {
        Ok((get_u32(data, pos), pos + 4))
    } else {
        Err(ParseError::UnexpectedEof)
    }
}

pub fn read_i32(data: &[u8], pos: usize) -> (r: Result<(i32, usize), ParseError>)
    ensures
        read_agrees(r, fixed_read(data@, pos as int, 4, be_i32(data@, pos as int))),
{
    if pos <= data.len() && data.len() - pos >= 4 {
        let v = get_u32(data, pos);
        Ok((#[verifier::truncate] (v as i32), pos + 4))
    } else {
        Err(ParseError::UnexpectedEof)
    }
}

pub fn read_u64(data: &[u8], pos: usize) -> (r: Result<(u64, usize), ParseError>)
    ensures
        read_agrees(r, fixed_read(data@, pos as int, 8, be_u64(data@, pos as int))),
{
    if pos <= data.len() && data.len() - pos >= 8 {
        Ok((get_u64(data, pos), pos + 8))
    } else {
        Err(ParseError::UnexpectedEof)
    }
}

/// HotSpot writes NUL inside text as the pair `C0 80`; each such pair, taken
/// left to right, becomes a single `00` byte and every other byte is kept.
pub open spec fn fold_nul_pairs(b: Seq<u8>) -> Seq<u8>
    decreases b.len(),
{
    if b.len() == 0 {
        Seq::empty()
    } else if b.len() >= 2 && b[0] == 0xC0 && b[1] == 0x80 {
        seq![0u8] + fold_nul_pairs(b.subrange(2, b.len() as int))
    } else {
        seq![b[0]] + fold_nul_pairs(b.subrange(1, b.len() as int))
    }
}

/// The number of `C0 80` pairs that the left-to-right fold replaces.
pub open spec fn nul_pair_count(b: Seq<u8>) -> nat
    decreases b.len(),
{
    if b.len() == 0 {
        0
    } else if b.len() >= 2 && b[0] == 0xC0 && b[1] == 0x80 {
        1 + nul_pair_count(b.subrange(2, b.len() as int))
    } else {
        nul_pair_count(b.subrange(1, b.len() as int))
    }
}

/// Folding the `k` pairs of `n` bytes leaves exactly `n - k` bytes.
pub proof fn lemma_fold_nul_pairs_len(b: Seq<u8>)
    ensures
        fold_nul_pairs(b).len() == b.len() - nul_pair_count(b),
    decreases b.len(),
{
    if b.len() >= 2 && b[0] == 0xC0 && b[1] == 0x80 {
        lemma_fold_nul_pairs_len(b.subrange(2, b.len() as int));
    } else if b.len() > 0 {
        lemma_fold_nul_pairs_len(b.subrange(1, b.len() as int));
    }
}

/// The text that standard UTF-8 decoding gives for `b`, or `None` where `b` is not
/// valid UTF-8.
pub uninterp spec fn utf8_text(b: Seq<u8>) -> Option<Seq<char>>;

/// Relies on `String::from_utf8`: it accepts exactly the valid UTF-8 sequences,
/// and the text it returns depends on the bytes alone.
#[verifier::external_body]
fn string_from_utf8(b: Vec<u8>) -> (r: Option<String>)
    ensures
        match r {
            Some(s) => utf8_text(b@) == Some(s@),
            None => utf8_text(b@) is None,
        },
{
    String::from_utf8(b).ok()
}

/// The text of the `n` bytes at `p`, once `C0 80` pairs are folded.
pub open spec fn modified_utf8_text(d: Seq<u8>, p: int, n: int) -> Result<(Seq<char>, int), ParseError> {
    if !avail(d, p, n) {
        Err(ParseError::UnexpectedEof)
    } else {
        match utf8_text(fold_nul_pairs(d.subrange(p, p + n))) {
            Some(t) => Ok((t, p + n)),
            None => Err(ParseError::BadUtf8),
        }
    }
}

/// Copies the `n` bytes at `start`, folding each `C0 80` pair into `00`.
pub fn fold_nul_pairs_at(data: &[u8], start: usize, n: usize) -> (r: Vec<u8>)
    requires
        avail(data@, start as int, n as int),
    ensures
        r@ == fold_nul_pairs(data@.subrange(start as int, start + n)),
        r@.len() <= n,
{
    proof {
        assert(data@.len() == data.len());
    }
    let end = start + n;
    let ghost whole = data@.subrange(start as int, end as int);
    let mut out: Vec<u8> = Vec::new();
    let mut i: usize = start;
    while i < end
        invariant
            start <= i <= end,
            end == start + n,
            end <= data@.len(),
            whole == data@.subrange(start as int, end as int),
            fold_nul_pairs(whole) == out@ + fold_nul_pairs(data@.subrange(i as int, end as int)),
            out@.len() <= i - start,
        decreases end - i,
    {
        let ghost rest = data@.subrange(i as int, end as int);
        if data[i] == 0xC0 && i + 1 < end && data[i + 1] == 0x80 {
            proof {
                assert(rest.subrange(2, rest.len() as int) =~= data@.subrange(i + 2, end as int));
                assert(out@.push(0u8) + fold_nul_pairs(data@.subrange(i + 2, end as int))
                    =~= out@ + fold_nul_pairs(rest));
            }
            out.push(0);
            i = i + 2;
        } else {
            proof {
                assert(rest.subrange(1, rest.len() as int) =~= data@.subrange(i + 1, end as int));
                assert(out@.push(data@[i as int]) + fold_nul_pairs(data@.subrange(i + 1, end as int))
                    =~= out@ + fold_nul_pairs(rest));
            }
            out.push(data[i]);
            i = i + 1;
        }
    }
    proof {
        assert(out@ + fold_nul_pairs(data@.subrange(end as int, end as int)) =~= out@);
    }
    out
}

/// Reads `n` bytes at `pos` as modified UTF-8 text.
pub fn read_utf8(data: &[u8], pos: usize, n: usize) -> (r: Result<(String, usize), ParseError>)
    ensures
        match (r, modified_utf8_text(data@, pos as int, n as int)) {
            (Ok((s, q)), Ok((t, sq))) => s@ == t && q == sq,
            (Err(e), Err(se)) => e == se,
            _ => false,
        },
{
    if pos > data.len() || data.len() - pos < n {
        return Err(ParseError::UnexpectedEof);
    }
    let folded = fold_nul_pairs_at(data, pos, n);
    match string_from_utf8(folded) {
        Some(s) => Ok((s, pos + n)),
        None => Err(ParseError::BadUtf8),
    }
}

} // verus!
