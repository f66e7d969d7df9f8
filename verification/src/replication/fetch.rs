//! Merging the record blocks of a stream with blocks read from object storage when a
//! fetch finds part of the requested span offloaded.
use vstd::prelude::*;

use super::range::ReplicationError;

verus! {

/// A block of records: offsets `[start_offset, end_offset)` and its length in bytes.
#[derive(Debug, Clone, Copy, PartialEq, Eq, Structural)]
pub struct BlockInfo {
    pub start_offset: u64,
    pub end_offset: u64,
    pub len: u32,
}

/// A part of the merged answer to a fetch.
#[derive(Debug, Clone, Copy, PartialEq, Eq, Structural)]
pub enum Piece {
    /// The record block at this position of the fetched record blocks.
    Record(usize),
    /// All blocks of one read from object storage, in order.
    Objects,
}

/// What to do next for a fetch being merged.
#[derive(Debug, Clone, Copy, PartialEq, Eq, Structural)]
pub enum FetchAction {
    /// Read the first object blocks from `start_offset` on, up to `end_offset`, at most
    /// `max_bytes`; report them with `on_objects`.
    ReadObjects { start_offset: u64, end_offset: u64, max_bytes: u32 },
    /// The merged pieces are complete.
    Done,
}

/// What a stream answers to a fetch: record blocks, possibly with the objects of object
/// storage that hold what the blocks lack.
pub enum FetchDataset<O> {
    Records(Vec<BlockInfo>),
    Mixin(Vec<BlockInfo>, Vec<O>),
}

/// How a fetch goes on once the stream answered.
pub enum FetchStart<O> {
    /// The answer: these record blocks, as the stream gave them.
    Answer(Vec<BlockInfo>),
    /// Register these objects, then merge with object storage, starting with `next`.
    Merge(FetchMerge, Vec<O>),
}

/// Progress of merging a fetch.
pub struct FetchMerge {
    records: Vec<BlockInfo>,
    /// Position of the record block to look at next.
    idx: usize,
    start: u64,
    end: u64,
    remaining: u32,
    pieces: Vec<Piece>,
    /// Start of the record block that the pending object read fills up to.
    gap_end: u64,
}

/// The outcome of walking over the record blocks from position `idx` on: taking every
/// block that starts at or before the fetch position, while the span is open and bytes
/// remain, until a block starts beyond the position.
pub struct Walk {
    pub idx: nat,
    pub start: u64,
    pub remaining: u32,
    pub taken: Seq<Piece>,
    pub action: FetchAction,
}

pub open spec fn min_u32(a: u32, b: u32) -> u32 {
    if a <= b { a } else { b }
}

pub open spec fn walk(records: Seq<BlockInfo>, idx: nat, start: u64, end: u64, remaining: u32) -> Walk
    decreases records.len() - idx,
{
    if idx >= records.len() || start >= end || remaining == 0 {
        Walk { idx, start, remaining, taken: Seq::empty(), action: FetchAction::Done }
    } else if records[idx as int].start_offset <= start {
        let b = records[idx as int];
        let w = walk(records, idx + 1, b.end_offset, end, (remaining - min_u32(b.len, remaining)) as u32);
        Walk { taken: seq![Piece::Record(idx as usize)] + w.taken, ..w }
    } else {
        Walk {
            idx,
            start,
            remaining,
            taken: Seq::empty(),
            action: FetchAction::ReadObjects {
                start_offset: start,
                end_offset: records[idx as int].start_offset,
                max_bytes: remaining,
            },
        }
    }
}

pub open spec fn sum_len(blocks: Seq<BlockInfo>) -> nat
    decreases blocks.len(),
{
    if blocks.len() == 0 {
        0
    } else {
        sum_len(blocks.drop_last()) + blocks.last().len as nat
    }
}

impl FetchMerge {
    pub closed spec fn spec_records(&self) -> Seq<BlockInfo> {
        self.records@
    }

    pub closed spec fn spec_idx(&self) -> nat {
        self.idx as nat
    }

    pub closed spec fn spec_start(&self) -> u64 {
        self.start
    }

    pub closed spec fn spec_end(&self) -> u64 {
        self.end
    }

    pub closed spec fn spec_remaining(&self) -> u32 {
        self.remaining
    }

    pub closed spec fn spec_pieces(&self) -> Seq<Piece> {
        self.pieces@
    }

    pub closed spec fn spec_gap_end(&self) -> u64 {
        self.gap_end
    }

    /// A merge of the record blocks `records` for a fetch of `[start_offset, end_offset)`
    /// of at most `batch_max_bytes`, with nothing taken yet.
    pub fn new(records: Vec<BlockInfo>, start_offset: u64, end_offset: u64, batch_max_bytes: u32) -> (m: FetchMerge)
        ensures
            m.spec_records() == records@,
            m.spec_idx() == 0,
            m.spec_start() == start_offset,
            m.spec_end() == end_offset,
            m.spec_remaining() == batch_max_bytes,
            m.spec_pieces() == Seq::<Piece>::empty(),
    {
        FetchMerge {
            records,
            idx: 0,
            start: start_offset,
            end: end_offset,
            remaining: batch_max_bytes,
            pieces: Vec::new(),
            gap_end: 0,
        }
    }

    /// The merged pieces so far.
    pub fn pieces(&self) -> (p: &Vec<Piece>)
        ensures
            p@ == self.spec_pieces(),
    {
        &self.pieces
    }

    /// Takes the record blocks that need no object storage and says what to do next.
    pub fn next(&mut self) -> (a: FetchAction)
        requires
            old(self).spec_idx() <= old(self).spec_records().len(),
        ensures
            ({
                let w = walk(
                    old(self).spec_records(),
                    old(self).spec_idx(),
                    old(self).spec_start(),
                    old(self).spec_end(),
                    old(self).spec_remaining(),
                );
                &&& a == w.action
                &&& final(self).spec_idx() == w.idx
                &&& final(self).spec_start() == w.start
                &&& final(self).spec_remaining() == w.remaining
                &&& final(self).spec_pieces() == old(self).spec_pieces() + w.taken
                &&& a matches FetchAction::ReadObjects { end_offset, .. } ==> final(self).spec_gap_end()
                    == end_offset
            }),
            final(self).spec_records() == old(self).spec_records(),
            final(self).spec_end() == old(self).spec_end(),
            final(self).spec_idx() <= final(self).spec_records().len(),
    {
        loop
            invariant
                self.records@ == old(self).records@,
                self.end == old(self).end,
                self.idx <= self.records@.len(),
                ({
                    let w0 = walk(
                        old(self).spec_records(),
                        old(self).spec_idx(),
                        old(self).spec_start(),
                        old(self).spec_end(),
                        old(self).spec_remaining(),
                    );
                    let w = walk(self.records@, self.idx as nat, self.start, self.end, self.remaining);
                    &&& w.action == w0.action
                    &&& w.idx == w0.idx
                    &&& w.start == w0.start
                    &&& w.remaining == w0.remaining
                    &&& old(self).spec_pieces() + w0.taken == self.pieces@ + w.taken
                }),
            decreases self.records@.len() - self.idx,
        {
            if self.idx >= self.records.len() || self.start >= self.end || self.remaining == 0 {
                return FetchAction::Done;
            }
            let b = self.records[self.idx];
            if b.start_offset <= self.start {
                let ghost before = self.pieces@;
                let ghost w1 = walk(self.records@, (self.idx + 1) as nat, b.end_offset, self.end, (self.remaining - min_u32(b.len, self.remaining)) as u32);
                self.pieces.push(Piece::Record(self.idx));
                assert(before + (seq![Piece::Record(self.idx)] + w1.taken) =~= self.pieces@ + w1.taken);
                self.start = b.end_offset;
                self.remaining = if b.len <= self.remaining { self.remaining - b.len } else { 0 };
                self.idx = self.idx + 1;
            } else {
                self.gap_end = b.start_offset;
                assert(self.pieces@ + Seq::<Piece>::empty() =~= self.pieces@);
                return FetchAction::ReadObjects {
                    start_offset: self.start,
                    end_offset: b.start_offset,
                    max_bytes: self.remaining,
                };
            }
        }
    }

    /// Takes the outcome of reading object blocks for the pending gap.
    ///
    /// A failed read, or one that found no blocks, is an internal error. Otherwise the
    /// blocks join the answer; if they end before the gap does, the fetch moves on to their
    /// end and spends their bytes, and is done once no bytes remain; in every other case the
    /// same gap is read again: a gap whose reads reached its end is not left behind, and the
    /// caller keeps reading it until the bytes run out.
    pub fn on_objects<E>(&mut self, read: &Result<Vec<BlockInfo>, E>) -> (r: Result<FetchAction, ReplicationError>)
        requires
            read matches Ok(objects) ==> sum_len(objects@) <= u32::MAX,
        ensures
            final(self).spec_records() == old(self).spec_records(),
            final(self).spec_end() == old(self).spec_end(),
            final(self).spec_idx() == old(self).spec_idx(),
            final(self).spec_gap_end() == old(self).spec_gap_end(),
            read is Err ==> r == Err::<FetchAction, ReplicationError>(ReplicationError::Internal)
                && final(self).spec_pieces() == old(self).spec_pieces()
                && final(self).spec_start() == old(self).spec_start()
                && final(self).spec_remaining() == old(self).spec_remaining(),
            read matches Ok(objects) ==> old(self).objects_taken(objects@, r, *final(self)),
    {
        match read {
            Err(_) => Err(ReplicationError::Internal),
            Ok(objects) => self.take_objects(objects),
        }
    }

    /// What taking `objects` for the pending gap does: see `on_objects`.
    pub open spec fn objects_taken(self, objects: Seq<BlockInfo>, r: Result<FetchAction, ReplicationError>, after: FetchMerge) -> bool {
        &&& after.spec_records() == self.spec_records()
        &&& after.spec_end() == self.spec_end()
        &&& after.spec_idx() == self.spec_idx()
        &&& after.spec_gap_end() == self.spec_gap_end()
        &&& objects.len() == 0 ==> r == Err::<FetchAction, ReplicationError>(ReplicationError::Internal)
            && after.spec_pieces() == self.spec_pieces()
            && after.spec_start() == self.spec_start()
            && after.spec_remaining() == self.spec_remaining()
        &&& objects.len() > 0 ==> {
            let obe = objects.last().end_offset;
            let moved = obe < self.spec_gap_end();
            let start = if moved { obe } else { self.spec_start() };
            let remaining = if moved {
                (self.spec_remaining() - min_u32(sum_len(objects) as u32, self.spec_remaining())) as u32
            } else {
                self.spec_remaining()
            };
            &&& after.spec_pieces() == self.spec_pieces().push(Piece::Objects)
            &&& after.spec_start() == start
            &&& after.spec_remaining() == remaining
            &&& r == Ok::<FetchAction, ReplicationError>(if remaining == 0 {
                FetchAction::Done
            } else {
                FetchAction::ReadObjects {
                    start_offset: start,
                    end_offset: self.spec_gap_end(),
                    max_bytes: remaining,
                }
            })
        }
    }

    fn take_objects(&mut self, objects: &Vec<BlockInfo>) -> (r: Result<FetchAction, ReplicationError>)
        requires
            sum_len(objects@) <= u32::MAX,
        ensures
            old(self).objects_taken(objects@, r, *final(self)),
            final(self).spec_records() == old(self).spec_records(),
            final(self).spec_end() == old(self).spec_end(),
            final(self).spec_idx() == old(self).spec_idx(),
            final(self).spec_gap_end() == old(self).spec_gap_end(),
            objects@.len() == 0 ==> r == Err::<FetchAction, ReplicationError>(ReplicationError::Internal)
                && final(self).spec_pieces() == old(self).spec_pieces()
                && final(self).spec_start() == old(self).spec_start()
                && final(self).spec_remaining() == old(self).spec_remaining(),
            objects@.len() > 0 ==> {
                let obe = objects@.last().end_offset;
                let moved = obe < old(self).spec_gap_end();
                let start = if moved { obe } else { old(self).spec_start() };
                let remaining = if moved {
                    (old(self).spec_remaining() - min_u32(sum_len(objects@) as u32, old(self).spec_remaining())) as u32
                } else {
                    old(self).spec_remaining()
                };
                &&& final(self).spec_pieces() == old(self).spec_pieces().push(Piece::Objects)
                &&& final(self).spec_start() == start
                &&& final(self).spec_remaining() == remaining
                &&& r == Ok::<FetchAction, ReplicationError>(if remaining == 0 {
                    FetchAction::Done
                } else {
                    FetchAction::ReadObjects {
                        start_offset: start,
                        end_offset: old(self).spec_gap_end(),
                        max_bytes: remaining,
                    }
                })
            },
    {
        let n = objects.len();
        if n == 0 {
            return Err(ReplicationError::Internal);
        }
        let end = objects[n - 1].end_offset;
        let mut total: u32 = 0;
        let mut i: usize = 0;
        while i < n
            invariant
                n == objects@.len(),
                i <= n,
                total == sum_len(objects@.subrange(0, i as int)),
                sum_len(objects@) <= u32::MAX,
            decreases n - i,
        {
            proof {
                lemma_sum_len_prefix(objects@, (i + 1) as nat);
                assert(objects@.subrange(0, i + 1).drop_last() == objects@.subrange(0, i as int));
            }
            total = total + objects[i].len;
            i = i + 1;
        }
        assert(objects@.subrange(0, n as int) == objects@);
        self.pieces.push(Piece::Objects);
        if end < self.gap_end {
            self.start = end;
            self.remaining = if total <= self.remaining { self.remaining - total } else { 0 };
        }
        if self.remaining == 0 {
            Ok(FetchAction::Done)
        } else {
            Ok(FetchAction::ReadObjects { start_offset: self.start, end_offset: self.gap_end, max_bytes: self.remaining })
        }
    }
}

/// Takes what the stream answered to a fetch of `[start_offset, end_offset)` of at most
/// `batch_max_bytes`.
///
/// A failed fetch fails as it is. Without objects, the record blocks are the answer,
/// unchanged, and object storage is never read; with objects, a merge starts from the
/// record blocks.
pub fn begin_fetch<O>(
    dataset: Result<FetchDataset<O>, ReplicationError>,
    start_offset: u64,
    end_offset: u64,
    batch_max_bytes: u32,
) -> (r: Result<FetchStart<O>, ReplicationError>)
    ensures
        dataset matches Err(e) ==> (r matches Err(x) && x == e),
        dataset matches Ok(FetchDataset::Records(b)) ==> (r matches Ok(FetchStart::Answer(a)) && a@ == b@),
        dataset matches Ok(FetchDataset::Mixin(b, objects)) ==> (objects@.len() == 0 ==> (r matches Ok(
            FetchStart::Answer(a),
        ) && a@ == b@)),
        dataset matches Ok(FetchDataset::Mixin(b, objects)) ==> (objects@.len() > 0 ==> (r matches Ok(
            FetchStart::Merge(m, o),
        ) && o@ == objects@ && m.spec_records() == b@ && m.spec_idx() == 0 && m.spec_start() == start_offset
            && m.spec_end() == end_offset && m.spec_remaining() == batch_max_bytes && m.spec_pieces()
            == Seq::<Piece>::empty())),
{
    match dataset {
        Err(e) => Err(e),
        Ok(FetchDataset::Records(blocks)) => Ok(FetchStart::Answer(blocks)),
        Ok(FetchDataset::Mixin(blocks, objects)) => {
            if objects.len() == 0 {
                Ok(FetchStart::Answer(blocks))
            } else {
                Ok(FetchStart::Merge(FetchMerge::new(blocks, start_offset, end_offset, batch_max_bytes), objects))
            }
        },
    }
}

/// The merge takes record blocks in order, from the position it stands at, and only
/// blocks that start before the end of the fetch: every block taken starts no later than
/// the fetch position it was taken at, and that position was still short of `end`.
/// Object storage is read only for a gap up to the start of a record block not yet taken;
/// once the record blocks are used up, the merge is done.
pub proof fn lemma_walk_takes_blocks_before_end(
    records: Seq<BlockInfo>,
    idx: nat,
    start: u64,
    end: u64,
    remaining: u32,
)
    ensures
        ({
            let w = walk(records, idx, start, end, remaining);
            &&& idx <= w.idx
            &&& w.taken.len() == w.idx - idx
            &&& forall|j: int| 0 <= j < w.taken.len() ==> #[trigger] w.taken[j] == Piece::Record(
                (idx + j) as usize,
            ) && idx + j < records.len() && records[idx + j].start_offset < end
            &&& w.idx >= records.len() ==> w.action == FetchAction::Done
            &&& w.action matches FetchAction::ReadObjects { start_offset, end_offset, max_bytes } ==> {
                &&& w.idx < records.len()
                &&& end_offset == records[w.idx as int].start_offset
                &&& start_offset == w.start
                &&& start_offset < end_offset
                &&& start_offset < end
                &&& max_bytes == w.remaining
                &&& max_bytes > 0
            }
        }),
    decreases records.len() - idx,
{
    if idx >= records.len() || start >= end || remaining == 0 {
    } else if records[idx as int].start_offset <= start {
        let b = records[idx as int];
        let r1 = (remaining - min_u32(b.len, remaining)) as u32;
        lemma_walk_takes_blocks_before_end(records, idx + 1, b.end_offset, end, r1);
        let w1 = walk(records, idx + 1, b.end_offset, end, r1);
        let w = walk(records, idx, start, end, remaining);
        assert(w.taken == seq![Piece::Record(idx as usize)] + w1.taken);
        assert forall|j: int| 0 <= j < w.taken.len() implies #[trigger] w.taken[j] == Piece::Record(
            (idx + j) as usize,
        ) && idx + j < records.len() && records[idx + j].start_offset < end by {
            if j > 0 {
                assert(w.taken[j] == w1.taken[j - 1]);
            }
        }
    }
}

/// A prefix of the blocks sums to no more than all of them.
proof fn lemma_sum_len_prefix(blocks: Seq<BlockInfo>, k: nat)
    requires
        k <= blocks.len(),
    ensures
        sum_len(blocks.subrange(0, k as int)) <= sum_len(blocks),
    decreases blocks.len(),
{
    if k < blocks.len() {
        lemma_sum_len_prefix(blocks.drop_last(), k);
        assert(blocks.drop_last().subrange(0, k as int) == blocks.subrange(0, k as int));
    } else {
        assert(blocks.subrange(0, k as int) == blocks);
    }
}

} // verus!
