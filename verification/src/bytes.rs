//! Big-endian integers in byte strings.

use byteorder::{BigEndian, ByteOrder};
use vstd::prelude::*;
use vstd::slice::slice_subrange;

verus! {

/// The big-endian `u32` in the first four bytes of `s`.
pub open spec fn be_u32(s: Seq<u8>) -> u32
    recommends
        s.len() >= 4,
{
    (s[0] as u32 * 0x100_0000 + s[1] as u32 * 0x1_0000 + s[2] as u32 * 0x100 + s[3] as u32) as u32
}

/// The big-endian `u64` in the first eight bytes of `s`.
pub open spec fn be_u64(s: Seq<u8>) -> u64
    recommends
        s.len() >= 8,
{
    (be_u32(s) as u64 * 0x1_0000_0000 + be_u32(s.subrange(4, 8)) as u64) as u64
}

/// Two four-byte strings with the same big-endian value are the same string.
pub proof fn lemma_be_u32_injective(a: Seq<u8>, b: Seq<u8>)
    requires
        a.len() == 4,
        b.len() == 4,
        be_u32(a) == be_u32(b),
    ensures
        a == b,
{
    let (a0, a1, a2, a3) = (a[0] as u64, a[1] as u64, a[2] as u64, a[3] as u64);
    let (b0, b1, b2, b3) = (b[0] as u64, b[1] as u64, b[2] as u64, b[3] as u64);
    assert(a0 == b0 && a1 == b1 && a2 == b2 && a3 == b3) by (bit_vector)
        requires
            a0 < 256 && a1 < 256 && a2 < 256 && a3 < 256,
            b0 < 256 && b1 < 256 && b2 < 256 && b3 < 256,
            a0 * 0x100_0000 + a1 * 0x1_0000 + a2 * 0x100 + a3 == b0 * 0x100_0000 + b1 * 0x1_0000
                + b2 * 0x100 + b3,
    ;
    assert(a =~= b);
}

/// Two eight-byte strings with the same big-endian value are the same string.
pub proof fn lemma_be_u64_injective(a: Seq<u8>, b: Seq<u8>)
    requires
        a.len() == 8,
        b.len() == 8,
        be_u64(a) == be_u64(b),
    ensures
        a == b,
{
    let ah = a.subrange(0, 4);
    let al = a.subrange(4, 8);
    let bh = b.subrange(0, 4);
    let bl = b.subrange(4, 8);
    assert(be_u32(a) == be_u32(ah));
    assert(be_u32(b) == be_u32(bh));
    assert(be_u32(ah) == be_u32(bh) && be_u32(al) == be_u32(bl));
    lemma_be_u32_injective(ah, bh);
    lemma_be_u32_injective(al, bl);
    assert forall|i: int| 0 <= i < 8 implies a[i] == b[i] by {
        if i < 4 {
            assert(a[i] == ah[i] && b[i] == bh[i]);
        } else {
            assert(a[i] == al[i - 4] && b[i] == bl[i - 4]);
        }
    }
    assert(a =~= b);
}

/// The bytes that encode `v` as a big-endian number of eight bytes.
pub open spec fn be_bytes_u64(v: u64) -> Seq<u8> {
    Seq::new(8, |i: int| ((v as int / pow256(7 - i)) % 256) as u8)
}

/// 256 to the power of `e`, for the eight places of a 64-bit number.
pub open spec fn pow256(e: int) -> int {
    if e <= 0 {
        1
    } else if e == 1 {
        0x100
    } else if e == 2 {
        0x1_0000
    } else if e == 3 {
        0x100_0000
    } else if e == 4 {
        0x1_0000_0000
    } else if e == 5 {
        0x100_0000_0000
    } else if e == 6 {
        0x1_0000_0000_0000
    } else {
        0x100_0000_0000_0000
    }
}

/// Reading the big-endian encoding of `v` gives `v`.
pub proof fn lemma_be_u64_roundtrip(v: u64)
    ensures
        be_u64(be_bytes_u64(v)) == v,
{
    let s = be_bytes_u64(v);
    let t = s.subrange(4, 8);
    assert(t[0] == s[4] && t[1] == s[5] && t[2] == s[6] && t[3] == s[7]);
    let d0 = (v / 0x100_0000_0000_0000) % 256;
    let d1 = (v / 0x1_0000_0000_0000) % 256;
    let d2 = (v / 0x100_0000_0000) % 256;
    let d3 = (v / 0x1_0000_0000) % 256;
    let d4 = (v / 0x100_0000) % 256;
    let d5 = (v / 0x1_0000) % 256;
    let d6 = (v / 0x100) % 256;
    let d7 = v % 256;
    assert(s[0] == d0 && s[1] == d1 && s[2] == d2 && s[3] == d3);
    assert(s[4] == d4 && s[5] == d5 && s[6] == d6 && s[7] == d7);
    let hi = (d0 * 0x100_0000 + d1 * 0x1_0000 + d2 * 0x100 + d3) as u64;
    let lo = (d4 * 0x100_0000 + d5 * 0x1_0000 + d6 * 0x100 + d7) as u64;
    assert(hi < 0x1_0000_0000 && lo < 0x1_0000_0000 && hi * 0x1_0000_0000 + lo == v) by (bit_vector)
        requires
            d0 == (v / 0x100_0000_0000_0000) % 256,
            d1 == (v / 0x1_0000_0000_0000) % 256,
            d2 == (v / 0x100_0000_0000) % 256,
            d3 == (v / 0x1_0000_0000) % 256,
            d4 == (v / 0x100_0000) % 256,
            d5 == (v / 0x1_0000) % 256,
            d6 == (v / 0x100) % 256,
            d7 == v % 256,
            hi == d0 * 0x100_0000 + d1 * 0x1_0000 + d2 * 0x100 + d3,
            lo == d4 * 0x100_0000 + d5 * 0x1_0000 + d6 * 0x100 + d7,
    ;
}

/// `byteorder::BigEndian::read_u32`: the first four bytes of `buf` as a
/// big-endian number. The outside function panics on a shorter slice.
#[verifier::external_body]
pub(crate) fn read_u32(buf: &[u8]) -> (r: u32)
    requires
        buf@.len() >= 4,
    ensures
        r == be_u32(buf@),
{
    BigEndian::read_u32(buf)
}

/// `byteorder::BigEndian::read_u64`: the first eight bytes of `buf` as a
/// big-endian number. The outside function panics on a shorter slice.
#[verifier::external_body]
pub(crate) fn read_u64(buf: &[u8]) -> (r: u64)
    requires
        buf@.len() >= 8,
    ensures
        r == be_u64(buf@),
{
    BigEndian::read_u64(buf)
}

/// The big-endian `u32` at `at` in `data`.
pub fn u32_at(data: &[u8], at: usize) -> (r: u32)
    requires
        at + 4 <= data@.len(),
    ensures
        r == be_u32(data@.subrange(at as int, at + 4)),
{
    let len: usize = data.len();
    assert(at + 4 <= len);
    read_u32(slice_subrange(data, at, at + 4))
}

/// The big-endian `u64` at `at` in `data`.
pub fn u64_at(data: &[u8], at: usize) -> (r: u64)
    requires
        at + 8 <= data@.len(),
    ensures
        r == be_u64(data@.subrange(at as int, at + 8)),
{
    let len: usize = data.len();
    assert(at + 8 <= len);
    read_u64(slice_subrange(data, at, at + 8))
}

} // verus!
