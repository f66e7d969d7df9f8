//! A range hosted by a data node, with the offset up to which its data is committed.
use vstd::prelude::*;

use crate::model::range_metadata::RangeMetadata;

verus! {

/// A range as a data node serves it.
#[derive(Debug, Clone, Copy)]
pub struct Range {
    pub metadata: RangeMetadata,
    committed: Option<u64>,
}

/// The end that sealing a range with committed offset `committed` against the
/// authoritative `target` metadata settles on.
pub open spec fn seal_end(local: RangeMetadata, committed: Option<u64>, target: RangeMetadata) -> u64 {
    match target.end {
        Some(end) => end,
        None => match committed {
            Some(c) => c,
            None => local.start,
        },
    }
}

/// All data of a range with `metadata` up to its end (or its start, while open) is
/// committed when `committed` is.
pub open spec fn data_complete_spec(metadata: RangeMetadata, committed: Option<u64>) -> bool {
    match committed {
        Some(c) => c >= match metadata.end {
            Some(end) => end,
            None => metadata.start,
        },
        None => false,
    }
}

/// The committed offset after committing `offset` on top of `committed`.
pub open spec fn commit_spec(start: u64, committed: Option<u64>, offset: u64) -> Option<u64> {
    match committed {
        Some(c) => if offset <= c { Some(c) } else { Some(offset) },
        None => if offset >= start { Some(offset) } else { None },
    }
}

impl Range {
    pub closed spec fn spec_committed(&self) -> Option<u64> {
        self.committed
    }

    pub closed spec fn spec_metadata(&self) -> RangeMetadata {
        self.metadata
    }

    /// All data of the range up to its end (or its start, while open) is committed.
    pub open spec fn spec_data_complete(&self) -> bool {
        data_complete_spec(self.spec_metadata(), self.spec_committed())
    }

    pub fn new(metadata: RangeMetadata) -> (r: Range)
        ensures
            r.spec_metadata() == metadata,
            r.spec_committed() is None,
    {
        Range { metadata, committed: None }
    }

    pub fn committed(&self) -> (c: Option<u64>)
        ensures
            c == self.spec_committed(),
    {
        self.committed
    }

    /// Moves the committed offset forward to `offset`; an offset at or below the committed
    /// one is ignored, and the first commit must not fall before the start of the range.
    pub fn commit(&mut self, offset: u64)
        ensures
            final(self).spec_metadata() == old(self).spec_metadata(),
            final(self).spec_committed() == commit_spec(
                old(self).spec_metadata().start,
                old(self).spec_committed(),
                offset,
            ),
    {
        if let Some(committed) = self.committed {
            if offset > committed {
                self.committed = Some(offset);
            }
            return ;
        }
        if offset >= self.metadata.start() {
            self.committed = Some(offset);
        }
    }

    /// Seals the range: the end of `metadata` if it has one, else the committed offset, else
    /// the start of the range, becomes the end of both this range and `metadata`.
    pub fn seal(&mut self, metadata: &mut RangeMetadata)
        ensures
            final(self).spec_committed() == old(self).spec_committed(),
            final(self).spec_metadata() == (RangeMetadata {
                end: Some(seal_end(old(self).spec_metadata(), old(self).spec_committed(), *old(metadata))),
                ..old(self).spec_metadata()
            }),
            *final(metadata) == (RangeMetadata {
                end: Some(seal_end(old(self).spec_metadata(), old(self).spec_committed(), *old(metadata))),
                ..*old(metadata)
            }),
    {
        let end = match metadata.end() {
            Some(end) => end,
            None => match self.committed {
                Some(c) => c,
                None => self.metadata.start(),
            },
        };
        self.metadata.set_end(end);
        metadata.set_end(end);
    }

    pub fn data_complete(&self) -> (b: bool)
        ensures
            b == self.spec_data_complete(),
    {
        match self.committed {
            Some(committed) => committed >= match self.metadata.end() {
                Some(end) => end,
                None => self.metadata.start(),
            },
            None => false,
        }
    }
}

/// Committing never moves the committed offset of a range backwards.
pub proof fn lemma_commit_is_monotonic(start: u64, committed: Option<u64>, offset: u64)
    ensures
        committed matches Some(c) ==> commit_spec(start, committed, offset) matches Some(d) && c <= d,
        commit_spec(start, committed, offset) matches Some(d) ==> d >= offset || committed
            is Some,
{
}

/// After sealing, the range holds all its data iff its committed offset reaches the end.
pub proof fn lemma_sealed_range_completeness(
    local: RangeMetadata,
    committed: Option<u64>,
    target: RangeMetadata,
)
    ensures
        ({
            let end = seal_end(local, committed, target);
            data_complete_spec(RangeMetadata { end: Some(end), ..local }, committed) <==> (
            committed matches Some(c) && c >= end)
        }),
{
}

} // verus!
