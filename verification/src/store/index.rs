use vstd::prelude::*;

verus! {

/// Exposes the minimum offset still held by the write-ahead log.
///
/// The log periodically purges segment files it no longer needs. Once a segment file is
/// removed, the minimum offset of the log moves forward, and the index entries that point
/// into the removed file are to be compacted away.
pub trait MinOffset {
    fn min_offset(&self) -> u64;
}

} // verus!
