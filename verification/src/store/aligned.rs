//! Alignment of direct reads from the write-ahead log.
use vstd::prelude::*;

verus! {

/// The span of the write-ahead log that an aligned read buffer covers.
#[derive(Debug, Clone, Copy, PartialEq, Eq, Structural)]
pub struct AlignedBuf {
    /// Start of the buffer in the WAL, a multiple of the alignment.
    pub wal_offset: u64,
    /// Length of the buffer, a multiple of the alignment.
    pub capacity: usize,
    pub alignment: usize,
}

pub struct AlignedBufReader {}

impl AlignedBufReader {
    /// The aligned buffer to read `len` bytes at `wal_offset`: from `wal_offset` rounded
    /// down to `to` = `wal_offset + len` rounded up, both to multiples of `alignment`.
    pub fn alloc_read_buf(wal_offset: u64, len: usize, alignment: usize) -> (b: AlignedBuf)
        requires
            alignment > 0,
            alignment & (alignment - 1) as usize == 0,
            wal_offset + len + alignment <= u64::MAX,
            ((wal_offset + len + alignment - 1) as int / alignment as int) * alignment - (wal_offset
                as int / alignment as int) * alignment <= usize::MAX,
        ensures
            b.alignment == alignment,
            b.wal_offset == (wal_offset / alignment as u64) * alignment,
            b.capacity == ((wal_offset + len + alignment - 1) as int / alignment as int) * alignment
                - b.wal_offset,
    {
        let a = alignment as u64;
        let end = wal_offset + len as u64 + a - 1;
        let qf = wal_offset / a;
        let qt = end / a;
        proof {
            vstd::arithmetic::div_mod::lemma_fundamental_div_mod(wal_offset as int, a as int);
            vstd::arithmetic::div_mod::lemma_fundamental_div_mod(end as int, a as int);
            vstd::arithmetic::mul::lemma_mul_is_commutative(qf as int, a as int);
            vstd::arithmetic::mul::lemma_mul_is_commutative(qt as int, a as int);
            vstd::arithmetic::div_mod::lemma_div_is_ordered(wal_offset as int, end as int, a as int);
            vstd::arithmetic::mul::lemma_mul_inequality(qf as int, qt as int, a as int);
        }
        let from = qf * a;
        let to = qt * a;
        AlignedBuf { wal_offset: from, capacity: (to - from) as usize, alignment }
    }
}

/// The aligned buffer starts at or before the requested offset and ends at or after the
/// requested end, on multiples of the alignment.
pub proof fn lemma_read_buf_covers(wal_offset: u64, len: usize, alignment: usize)
    requires
        alignment > 0,
    ensures
        ({
            let a = alignment as int;
            let from = (wal_offset as int / a) * a;
            let to = ((wal_offset + len + a - 1) / a) * a;
            &&& from <= wal_offset
            &&& to >= wal_offset + len
            &&& from % a == 0
            &&& to % a == 0
            &&& to - from < len + 2 * a
        }),
{
    let a = alignment as int;
    let x = wal_offset as int;
    let y = wal_offset + len + a - 1;
    vstd::arithmetic::div_mod::lemma_fundamental_div_mod(x, a);
    vstd::arithmetic::div_mod::lemma_fundamental_div_mod(y, a);
    vstd::arithmetic::div_mod::lemma_mod_multiples_basic(x / a, a);
    vstd::arithmetic::div_mod::lemma_mod_multiples_basic(y / a, a);
    vstd::arithmetic::mul::lemma_mul_is_commutative(x / a, a);
    vstd::arithmetic::mul::lemma_mul_is_commutative(y / a, a);
}

} // verus!
