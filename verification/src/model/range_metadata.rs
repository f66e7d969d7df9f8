//! Metadata of a range: a contiguous span of offsets of a stream.
use vstd::prelude::*;

verus! {

/// Why a range refused to be sealed.
#[derive(Debug, Clone, Copy, PartialEq, Eq, Structural)]
pub enum RangeError {
    AlreadySealed,
}

/// Metadata of a range of a stream: `[start, end)` once sealed, `[start, ..)` while open.
#[derive(Debug, Clone, Copy, PartialEq, Eq, Structural)]
pub struct RangeMetadata {
    pub stream_id: i64,
    pub index: i32,
    pub epoch: u64,
    pub start: u64,
    pub end: Option<u64>,
    pub ack_count: u32,
}

impl RangeMetadata {
    pub open spec fn spec_stream_id(&self) -> i64 {
        self.stream_id
    }

    pub open spec fn spec_index(&self) -> i32 {
        self.index
    }

    pub open spec fn spec_epoch(&self) -> u64 {
        self.epoch
    }

    pub open spec fn spec_start(&self) -> u64 {
        self.start
    }

    pub open spec fn spec_end(&self) -> Option<u64> {
        self.end
    }

    pub open spec fn spec_ack_count(&self) -> u32 {
        self.ack_count
    }

    pub open spec fn spec_is_sealed(&self) -> bool {
        self.end is Some
    }

    /// `offset` falls into the range.
    pub open spec fn spec_contains(&self, offset: u64) -> bool {
        self.start <= offset && match self.end {
            Some(end) => offset < end,
            None => true,
        }
    }

    /// Metadata of range `index` of stream `stream_id`; a single replica acknowledges writes.
    pub fn new(stream_id: i64, index: i32, epoch: u64, start: u64, end: Option<u64>) -> (r: Self)
        ensures
            r.spec_stream_id() == stream_id,
            r.spec_index() == index,
            r.spec_epoch() == epoch,
            r.spec_start() == start,
            r.spec_end() == end,
            r.spec_ack_count() == 1,
    {
        RangeMetadata { stream_id, index, epoch, start, end, ack_count: 1 }
    }

    /// The same metadata, writes acknowledged by `ack_count` replicas.
    pub fn with_ack_count(self, ack_count: u32) -> (r: Self)
        ensures
            r == (RangeMetadata { ack_count, ..self }),
    {
        RangeMetadata { ack_count, ..self }
    }

    pub fn stream_id(&self) -> (v: i64)
        ensures
            v == self.spec_stream_id(),
    {
        self.stream_id
    }

    pub fn index(&self) -> (v: i32)
        ensures
            v == self.spec_index(),
    {
        self.index
    }

    pub fn epoch(&self) -> (v: u64)
        ensures
            v == self.spec_epoch(),
    {
        self.epoch
    }

    pub fn start(&self) -> (v: u64)
        ensures
            v == self.spec_start(),
    {
        self.start
    }

    pub fn end(&self) -> (v: Option<u64>)
        ensures
            v == self.spec_end(),
    {
        self.end
    }

    pub fn ack_count(&self) -> (v: u32)
        ensures
            v == self.spec_ack_count(),
    {
        self.ack_count
    }

    pub fn set_end(&mut self, end: u64)
        ensures
            *final(self) == (RangeMetadata { end: Some(end), ..*old(self) }),
    {
        self.end = Some(end);
    }

    pub fn is_sealed(&self) -> (b: bool)
        ensures
            b == self.spec_is_sealed(),
    {
        self.end.is_some()
    }

    /// Seals an open range at `end`, answering the end offset; a sealed range is left as it is.
    pub fn seal(&mut self, end: u64) -> (r: Result<u64, RangeError>)
        ensures
            old(self).spec_is_sealed() ==> r == Err::<u64, RangeError>(RangeError::AlreadySealed)
                && *final(self) == *old(self),
            !old(self).spec_is_sealed() ==> r == Ok::<u64, RangeError>(end) && *final(self) == (
            RangeMetadata { end: Some(end), ..*old(self) }),
    {
        if self.end.is_some() {
            return Err(RangeError::AlreadySealed);
        }
        self.end = Some(end);
        Ok(end)
    }

    pub fn contains(&self, offset: u64) -> (b: bool)
        ensures
            b == self.spec_contains(offset),
    {
        if offset < self.start {
            return false;
        }
        match self.end {
            Some(end) => offset < end,
            None => true,
        }
    }
}

} // verus!
