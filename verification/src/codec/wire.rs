//! Big-endian integers as they travel on the wire.
use vstd::prelude::*;

verus! {

pub open spec fn be16(s: Seq<u8>, i: int) -> nat {
    (s[i] as nat) * 256 + (s[i + 1] as nat)
}

pub open spec fn be24(s: Seq<u8>, i: int) -> nat {
    (s[i] as nat) * 65536 + (s[i + 1] as nat) * 256 + (s[i + 2] as nat)
}

pub open spec fn be32(s: Seq<u8>, i: int) -> nat {
    (s[i] as nat) * 16777216 + (s[i + 1] as nat) * 65536 + (s[i + 2] as nat) * 256 + (s[i
        + 3] as nat)
}

pub open spec fn be64(s: Seq<u8>, i: int) -> nat {
    be32(s, i) * 4294967296 + be32(s, i + 4)
}

pub open spec fn be16_bytes(v: u16) -> Seq<u8> {
    seq![(v >> 8u16) as u8, v as u8]
}

pub open spec fn be24_bytes(v: u32) -> Seq<u8> {
    seq![(v >> 16u32) as u8, (v >> 8u32) as u8, v as u8]
}

pub open spec fn be32_bytes(v: u32) -> Seq<u8> {
    seq![(v >> 24u32) as u8, (v >> 16u32) as u8, (v >> 8u32) as u8, v as u8]
}

pub proof fn lemma_be16_roundtrip(v: u16)
    ensures
        be16(be16_bytes(v), 0) == v,
{
    let b0 = (v >> 8u16) as u8;
    let b1 = v as u8;
    assert((b0 as u16) * 256 + (b1 as u16) == v) by (bit_vector)
        requires
            b0 == (v >> 8u16) as u8,
            b1 == v as u8,
    ;
}

pub proof fn lemma_be24_roundtrip(v: u32)
    requires
        v < 16777216,
    ensures
        be24(be24_bytes(v), 0) == v,
{
    let b0 = (v >> 16u32) as u8;
    let b1 = (v >> 8u32) as u8;
    let b2 = v as u8;
    assert((b0 as u32) * 65536 + (b1 as u32) * 256 + (b2 as u32) == v) by (bit_vector)
        requires
            v < 16777216,
            b0 == (v >> 16u32) as u8,
            b1 == (v >> 8u32) as u8,
            b2 == v as u8,
    ;
}

pub proof fn lemma_be32_roundtrip(v: u32)
    ensures
        be32(be32_bytes(v), 0) == v,
{
    let b0 = (v >> 24u32) as u8;
    let b1 = (v >> 16u32) as u8;
    let b2 = (v >> 8u32) as u8;
    let b3 = v as u8;
    assert((b0 as u32) * 16777216 + (b1 as u32) * 65536 + (b2 as u32) * 256 + (b3 as u32) == v)
        by (bit_vector)
        requires
            b0 == (v >> 24u32) as u8,
            b1 == (v >> 16u32) as u8,
            b2 == (v >> 8u32) as u8,
            b3 == v as u8,
    ;
}

pub fn read_be16(s: &[u8], i: usize) -> (r: u16)
    requires
        i + 2 <= s@.len(),
    ensures
        r == be16(s@, i as int),
{
    (s[i] as u16) * 256 + (s[i + 1] as u16)
}

pub fn read_be24(s: &[u8], i: usize) -> (r: u32)
    requires
        i + 3 <= s@.len(),
    ensures
        r == be24(s@, i as int),
{
    (s[i] as u32) * 65536 + (s[i + 1] as u32) * 256 + (s[i + 2] as u32)
}

pub fn read_be32(s: &[u8], i: usize) -> (r: u32)
    requires
        i + 4 <= s@.len(),
    ensures
        r == be32(s@, i as int),
{
    (s[i] as u32) * 16777216 + (s[i + 1] as u32) * 65536 + (s[i + 2] as u32) * 256 + (s[i
        + 3] as u32)
}

pub fn read_be64(s: &[u8], i: usize) -> (r: u64)
    requires
        i + 8 <= s@.len(),
    ensures
        r == be64(s@, i as int),
{
    let _n = s.len();
    let hi = read_be32(s, i);
    let lo = read_be32(s, i + 4);
    (hi as u64) * 4294967296 + (lo as u64)
}

pub fn push_be16(buf: &mut Vec<u8>, v: u16)
    ensures
        final(buf)@ == old(buf)@ + be16_bytes(v),
{
    buf.push((v >> 8u16) as u8);
    buf.push(v as u8);
    assert(final(buf)@ =~= old(buf)@ + be16_bytes(v));
}

pub fn push_be24(buf: &mut Vec<u8>, v: u32)
    ensures
        final(buf)@ == old(buf)@ + be24_bytes(v),
{
    buf.push((v >> 16u32) as u8);
    buf.push((v >> 8u32) as u8);
    buf.push(v as u8);
    assert(final(buf)@ =~= old(buf)@ + be24_bytes(v));
}

pub fn push_be32(buf: &mut Vec<u8>, v: u32)
    ensures
        final(buf)@ == old(buf)@ + be32_bytes(v),
{
    buf.push((v >> 24u32) as u8);
    buf.push((v >> 16u32) as u8);
    buf.push((v >> 8u32) as u8);
    buf.push(v as u8);
    assert(final(buf)@ =~= old(buf)@ + be32_bytes(v));
}

/// Appends every byte of `src` to `buf`.
pub fn push_all(buf: &mut Vec<u8>, src: &[u8])
    ensures
        final(buf)@ == old(buf)@ + src@,
{
    let mut i: usize = 0;
    while i < src.len()
        invariant
            i <= src@.len(),
            buf@ == old(buf)@ + src@.subrange(0, i as int),
        decreases src@.len() - i,
    {
        buf.push(src[i]);
        i = i + 1;
        assert(buf@ =~= old(buf)@ + src@.subrange(0, i as int));
    }
    assert(src@.subrange(0, i as int) =~= src@);
}

/// Copies `s[from..to]` into a new vector.
pub fn copy_range(s: &[u8], from: usize, to: usize) -> (v: Vec<u8>)
    requires
        from <= to <= s@.len(),
    ensures
        v@ == s@.subrange(from as int, to as int),
{
    let mut v: Vec<u8> = Vec::new();
    let mut i = from;
    while i < to
        invariant
            from <= i <= to <= s@.len(),
            v@ == s@.subrange(from as int, i as int),
        decreases to - i,
    {
        v.push(s[i]);
        i = i + 1;
        assert(v@ =~= s@.subrange(from as int, i as int));
    }
    v
}

} // verus!
