//! Index entries that point at records in the write-ahead log.
use vstd::prelude::*;

use crate::codec::wire::{be16, be32, be64, read_be16, read_be32, read_be64};

verus! {

/// Extended information of a record.
#[derive(Debug, Clone, Copy, PartialEq, Eq, Structural)]
pub enum HandleExt {
    /// Hash of the record tag, if the record holds a single entry.
    Hash(u64),
    /// Number of the nested entries included in the record.
    BatchSize(u16),
}

/// Where a record lies in the write-ahead log.
#[derive(Debug, Clone, Copy, PartialEq, Eq, Structural)]
pub struct RecordHandle {
    /// WAL offset
    pub wal_offset: u64,
    /// Bytes of the record in the WAL
    pub len: u32,
    /// Extended information of the record.
    pub ext: HandleExt,
}

/// An index entry: offset (8 bytes), then length and type packed as `length << 8 | type`
/// (4 bytes), then the extension, a tag hash (8 bytes) for type 0 or a batch size
/// (2 bytes) for type 1; all big-endian.
pub open spec fn decodable(value: Seq<u8>) -> bool {
    &&& value.len() >= 12
    &&& (value[11] == 0 || value[11] == 1)
    &&& value[11] == 0 ==> value.len() >= 20
    &&& value[11] == 1 ==> value.len() >= 14
}

pub open spec fn decode_spec(value: Seq<u8>) -> RecordHandle {
    RecordHandle {
        wal_offset: be64(value, 0) as u64,
        len: (be32(value, 8) / 256) as u32,
        ext: if value[11] == 0 {
            HandleExt::Hash(be64(value, 12) as u64)
        } else {
            HandleExt::BatchSize(be16(value, 12) as u16)
        },
    }
}

impl RecordHandle {
    /// Decodes an index entry (see `decodable`).
    pub fn from_slice(value: &[u8]) -> (h: RecordHandle)
        requires
            decodable(value@),
        ensures
            h == decode_spec(value@),
    {
        let offset = read_be64(value, 0);
        let length_type = read_be32(value, 8);
        let ty = length_type % 256;
        let len = length_type / 256;
        assert(ty == value@[11]);
        let ext = if ty == 0 {
            HandleExt::Hash(read_be64(value, 12))
        } else {
            HandleExt::BatchSize(read_be16(value, 12))
        };
        RecordHandle { wal_offset: offset, len, ext }
    }
}

} // verus!
