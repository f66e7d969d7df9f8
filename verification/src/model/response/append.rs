use vstd::prelude::*;

verus! {

/// One entry of an append response: where a batch of records of a stream landed.
#[derive(Debug, Clone, Copy)]
pub struct AppendEntry {
    pub stream_id: u64,
    pub index: u32,
    pub offset: u64,
    pub len: u32,
}

impl Default for AppendEntry {
    fn default() -> (e: AppendEntry)
        ensures
            e.stream_id == 0,
            e.index == 0,
            e.offset == 0,
            e.len == 0,
    {
        AppendEntry { stream_id: 0, index: 0, offset: 0, len: 0 }
    }
}

} // verus!
