//! Requests to append records to the store.
use vstd::prelude::*;

use crate::tiered::cache::{as_unsigned, unsigned_of};

verus! {

/// A request to append a batch of records of a range of a stream.
pub struct AppendRecordRequest {
    /// Stream ID
    pub stream_id: i64,
    /// Range index
    pub range: i32,
    pub offset: i64,
    /// Quantity of records in the batch
    pub len: usize,
    pub buffer: Vec<u8>,
}

impl AppendRecordRequest {
    /// The offset of the batch, its bits read as unsigned.
    pub fn offset(&self) -> (o: u64)
        ensures
            o == as_unsigned(self.offset),
    {
        unsigned_of(self.offset)
    }

    /// The number of records of the batch.
    pub fn len(&self) -> (n: usize)
        ensures
            n == self.len,
    {
        self.len
    }
}

} // verus!
