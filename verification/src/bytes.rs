//! Big-endian integers and checksums over byte sequences.

use vstd::prelude::*;

verus! {

/// The bytes of `data` from `pos` on begin with `prefix`.
pub open spec fn starts_with_at(data: Seq<u8>, pos: int, prefix: Seq<u8>) -> bool {
    &&& 0 <= pos
    &&& pos + prefix.len() <= data.len()
    &&& data.subrange(pos, pos + prefix.len()) == prefix
}

/// The bytes of `data` from `pos` on are `x` cut short: they end before
/// `x` does, and agree with it as far as they go.
pub open spec fn cut_short_at(data: Seq<u8>, pos: int, x: Seq<u8>) -> bool {
    &&& 0 <= pos <= data.len()
    &&& data.len() - pos < x.len()
    &&& data.subrange(pos, data.len() as int) == x.subrange(0, data.len() - pos)
}

/// The 4 bytes of `x`, most significant first.
pub open spec fn be_u32(x: u32) -> Seq<u8> {
    seq![
        (x / 0x100_0000) as u8,
        ((x / 0x1_0000) % 0x100) as u8,
        ((x / 0x100) % 0x100) as u8,
        (x % 0x100) as u8,
    ]
}

/// The 8 bytes of `x`, most significant first.
pub open spec fn be_u64(x: u64) -> Seq<u8> {
    be_u32((x / 0x1_0000_0000) as u32) + be_u32((x % 0x1_0000_0000) as u32)
}

/// The number whose big-endian bytes are `b[0..4]`.
pub open spec fn read_be_u32(b: Seq<u8>) -> u32 {
    (b[0] * 0x100_0000 + b[1] * 0x1_0000 + b[2] * 0x100 + b[3]) as u32
}

/// The number whose big-endian bytes are `b[0..8]`.
pub open spec fn read_be_u64(b: Seq<u8>) -> u64 {
    (read_be_u32(b.subrange(0, 4)) * 0x1_0000_0000 + read_be_u32(b.subrange(4, 8))) as u64
}

/// Reading back the bytes of `x` gives `x`.
pub proof fn lemma_be_u32_roundtrip(x: u32)
    ensures
        be_u32(x).len() == 4,
        read_be_u32(be_u32(x)) == x,
{
    let b0 = x / 0x100_0000;
    let r0 = x % 0x100_0000;
    let b1 = r0 / 0x1_0000;
    let r1 = r0 % 0x1_0000;
    let b2 = r1 / 0x100;
    let b3 = r1 % 0x100;
    assert(x / 0x1_0000 == b0 * 0x100 + b1) by (nonlinear_arith)
        requires b0 == x / 0x100_0000, r0 == x % 0x100_0000, b1 == r0 / 0x1_0000;
    assert((x / 0x1_0000) % 0x100 == b1) by (nonlinear_arith)
        requires x / 0x1_0000 == b0 * 0x100 + b1, b1 < 0x100, b1 >= 0;
    assert(x / 0x100 == (b0 * 0x100 + b1) * 0x100 + b2) by (nonlinear_arith)
        requires b0 == x / 0x100_0000, r0 == x % 0x100_0000, b1 == r0 / 0x1_0000,
            r1 == r0 % 0x1_0000, b2 == r1 / 0x100;
    assert((x / 0x100) % 0x100 == b2) by (nonlinear_arith)
        requires x / 0x100 == (b0 * 0x100 + b1) * 0x100 + b2, 0 <= b2 < 0x100;
    assert(x % 0x100 == b3) by (nonlinear_arith)
        requires b0 == x / 0x100_0000, r0 == x % 0x100_0000, b1 == r0 / 0x1_0000,
            r1 == r0 % 0x1_0000, b2 == r1 / 0x100, b3 == r1 % 0x100;
    assert(b0 * 0x100_0000 + b1 * 0x1_0000 + b2 * 0x100 + b3 == x) by (nonlinear_arith)
        requires b0 == x / 0x100_0000, r0 == x % 0x100_0000, b1 == r0 / 0x1_0000,
            r1 == r0 % 0x1_0000, b2 == r1 / 0x100, b3 == r1 % 0x100;
}

/// Bytes read as a number and written back are the same bytes.
pub proof fn lemma_read_be_u32_roundtrip(b: Seq<u8>)
    requires
        b.len() == 4,
    ensures
        be_u32(read_be_u32(b)) == b,
{
    let x: int = b[0] * 0x100_0000 + b[1] * 0x1_0000 + b[2] * 0x100 + b[3];
    let b0: int = b[0] as int;
    let b1: int = b[1] as int;
    let b2: int = b[2] as int;
    let b3: int = b[3] as int;
    assert(0 <= x < 0x1_0000_0000) by (nonlinear_arith)
        requires x == b0 * 0x100_0000 + b1 * 0x1_0000 + b2 * 0x100 + b3,
            0 <= b0 < 256, 0 <= b1 < 256, 0 <= b2 < 256, 0 <= b3 < 256;
    assert(x / 0x100_0000 == b0) by (nonlinear_arith)
        requires x == b0 * 0x100_0000 + b1 * 0x1_0000 + b2 * 0x100 + b3,
            0 <= b0 < 256, 0 <= b1 < 256, 0 <= b2 < 256, 0 <= b3 < 256;
    assert((x / 0x1_0000) % 0x100 == b1) by (nonlinear_arith)
        requires x == b0 * 0x100_0000 + b1 * 0x1_0000 + b2 * 0x100 + b3,
            0 <= b0 < 256, 0 <= b1 < 256, 0 <= b2 < 256, 0 <= b3 < 256;
    assert((x / 0x100) % 0x100 == b2) by (nonlinear_arith)
        requires x == b0 * 0x100_0000 + b1 * 0x1_0000 + b2 * 0x100 + b3,
            0 <= b0 < 256, 0 <= b1 < 256, 0 <= b2 < 256, 0 <= b3 < 256;
    assert(x % 0x100 == b3) by (nonlinear_arith)
        requires x == b0 * 0x100_0000 + b1 * 0x1_0000 + b2 * 0x100 + b3,
            0 <= b0 < 256, 0 <= b1 < 256, 0 <= b2 < 256, 0 <= b3 < 256;
    assert(be_u32(read_be_u32(b)) =~= b);
}

/// Reading back the 8 bytes of `x` gives `x`.
pub proof fn lemma_be_u64_roundtrip(x: u64)
    ensures
        be_u64(x).len() == 8,
        read_be_u64(be_u64(x)) == x,
{
    let hi = (x / 0x1_0000_0000) as u32;
    let lo = (x % 0x1_0000_0000) as u32;
    lemma_be_u32_roundtrip(hi);
    lemma_be_u32_roundtrip(lo);
    assert(be_u64(x).subrange(0, 4) =~= be_u32(hi));
    assert(be_u64(x).subrange(4, 8) =~= be_u32(lo));
    assert(hi * 0x1_0000_0000 + lo == x) by (nonlinear_arith)
        requires hi == x / 0x1_0000_0000, lo == x % 0x1_0000_0000;
}

/// 8 bytes read as a number and written back are the same bytes.
pub proof fn lemma_read_be_u64_roundtrip(b: Seq<u8>)
    requires
        b.len() == 8,
    ensures
        be_u64(read_be_u64(b)) == b,
{
    let hi = read_be_u32(b.subrange(0, 4));
    let lo = read_be_u32(b.subrange(4, 8));
    lemma_read_be_u32_roundtrip(b.subrange(0, 4));
    lemma_read_be_u32_roundtrip(b.subrange(4, 8));
    let x: int = hi * 0x1_0000_0000 + lo;
    assert(0 <= x < 0x1_0000_0000_0000_0000) by (nonlinear_arith)
        requires x == hi * 0x1_0000_0000 + lo, 0 <= hi < 0x1_0000_0000, 0 <= lo < 0x1_0000_0000;
    assert(x / 0x1_0000_0000 == hi) by (nonlinear_arith)
        requires x == hi * 0x1_0000_0000 + lo, 0 <= hi < 0x1_0000_0000, 0 <= lo < 0x1_0000_0000;
    assert(x % 0x1_0000_0000 == lo) by (nonlinear_arith)
        requires x == hi * 0x1_0000_0000 + lo, 0 <= hi < 0x1_0000_0000, 0 <= lo < 0x1_0000_0000;
    assert(b =~= b.subrange(0, 4) + b.subrange(4, 8));
}

/// Append the big-endian bytes of `x`.
pub fn push_be_u32(buf: &mut Vec<u8>, x: u32)
    ensures
        final(buf)@ == old(buf)@ + be_u32(x),
{
    buf.push((x / 0x100_0000) as u8);
    buf.push(((x / 0x1_0000) % 0x100) as u8);
    buf.push(((x / 0x100) % 0x100) as u8);
    buf.push((x % 0x100) as u8);
    assert(buf@ =~= old(buf)@ + be_u32(x));
}

/// Append the big-endian bytes of `x`.
pub fn push_be_u64(buf: &mut Vec<u8>, x: u64)
    ensures
        final(buf)@ == old(buf)@ + be_u64(x),
{
    push_be_u32(buf, (x / 0x1_0000_0000) as u32);
    push_be_u32(buf, (x % 0x1_0000_0000) as u32);
    assert(buf@ =~= old(buf)@ + be_u64(x));
}

/// The number stored big-endian at `data[pos..pos + 4]`.
pub fn get_be_u32(data: &[u8], pos: usize) -> (r: u32)
    requires
        pos + 4 <= data@.len(),
    ensures
        r == read_be_u32(data@.subrange(pos as int, pos + 4)),
{
    let b0 = data[pos] as u32;
    let b1 = data[pos + 1] as u32;
    let b2 = data[pos + 2] as u32;
    let b3 = data[pos + 3] as u32;
    assert(b0 * 0x100_0000 + b1 * 0x1_0000 + b2 * 0x100 + b3 < 0x1_0000_0000) by (nonlinear_arith)
        requires b0 < 256, b1 < 256, b2 < 256, b3 < 256;
    b0 * 0x100_0000 + b1 * 0x1_0000 + b2 * 0x100 + b3
}

/// The number stored big-endian at `data[pos..pos + 8]`.
pub fn get_be_u64(data: &[u8], pos: usize) -> (r: u64)
    requires
        pos + 8 <= data@.len(),
    ensures
        r == read_be_u64(data@.subrange(pos as int, pos + 8)),
{
    let _n = data.len();
    let hi = get_be_u32(data, pos) as u64;
    let lo = get_be_u32(data, pos + 4) as u64;
    assert(data@.subrange(pos as int, pos + 8).subrange(0, 4) =~= data@.subrange(pos as int, pos + 4));
    assert(data@.subrange(pos as int, pos + 8).subrange(4, 8) =~= data@.subrange(pos + 4, pos + 8));
    assert(hi * 0x1_0000_0000 + lo < 0x1_0000_0000_0000_0000) by (nonlinear_arith)
        requires hi < 0x1_0000_0000, lo < 0x1_0000_0000;
    hi * 0x1_0000_0000 + lo
}

/// The CRC32 checksum of `data`, as `codeq`'s `Crc32fast` configuration
/// computes it: a `u64` whose upper 32 bits are zero.
pub uninterp spec fn crc32_checksum(data: Seq<u8>) -> u64;

/// The checksum of `data`.
///
/// Calls `codeq::config::CodeqConfig::hash` of `codeq::config::Crc32fast`,
/// which feeds `data` to a `crc32fast::Hasher` and returns its `finish()`.
/// The contract claims only that the result is the named checksum of the
/// bytes; the CRC32 algorithm itself is not written out.
#[verifier::external_body]
pub(crate) fn checksum(data: &[u8]) -> (r: u64)
    ensures
        r == crc32_checksum(data@),
{
    <codeq::config::Crc32fast as codeq::config::CodeqConfig>::hash(data)
}

} // verus!
