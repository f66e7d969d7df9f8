//! The replication state of one range of a stream: how far its replicas confirm writes,
//! and its sealing.
use vstd::prelude::*;

use super::order::{above, at_least, lemma_nth_largest_rank, nth_largest, nth_largest_spec};
use crate::model::range_metadata::RangeMetadata;

verus! {

pub const CORRUPTED_FLAG: u32 = 1;

pub const SEALING_FLAG: u32 = 2;

pub const SEALED_FLAG: u32 = 4;

#[derive(Debug, Clone, Copy, PartialEq, Eq, Structural)]
pub enum ReplicationError {
    Internal,
}

/// A replica of the range: the offset up to which it confirms writes, and whether it is
/// corrupted.
#[derive(Debug, Clone, Copy, PartialEq, Eq, Structural)]
pub struct ReplicaState {
    pub confirm_offset: u64,
    pub corrupted: bool,
}

/// What the owner of a range does after the range tried to acknowledge writes.
#[derive(Debug, Clone, Copy, PartialEq, Eq, Structural)]
pub enum AckAction {
    /// Nothing changed.
    Nothing,
    /// The range's confirm offset or status changed: let the stream try to acknowledge.
    NotifyStream,
}

/// The next step of sealing a range.
#[derive(Debug, Clone, Copy, PartialEq, Eq, Structural)]
pub enum SealStep {
    /// The range is sealed at this end offset.
    Sealed(u64),
    /// Another seal is under way: await its outcome.
    AwaitSealTask,
    /// Ask the placement manager to seal the range at this end offset, then report with
    /// `on_placement_manager_sealed`.
    SealPlacementManager(u64),
    /// Seal the replicas first and report their end offsets with `on_replicas_sealed`.
    SealReplicas,
}

/// Confirm offsets of the replicas that are not corrupted, in order.
pub open spec fn healthy_offsets(replicas: Seq<ReplicaState>) -> Seq<u64> {
    replicas.filter(|r: ReplicaState| !r.corrupted).map_values(|r: ReplicaState| r.confirm_offset)
}

/// The offset up to which `ack_count` replicas confirm writes: the `ack_count`-th largest
/// confirm offset of the healthy replicas.
pub open spec fn confirm_offset_spec(replicas: Seq<ReplicaState>, ack_count: u32) -> Result<u64, ReplicationError> {
    if replicas.len() == 0 {
        Err(ReplicationError::Internal)
    } else {
        match nth_largest_spec(healthy_offsets(replicas), (ack_count - 1) as nat) {
            Some(v) => Ok(v),
            None => Err(ReplicationError::Internal),
        }
    }
}

/// The end offset that `ack_count` sealed replicas agree on: the `ack_count`-th largest
/// of the end offsets they reported.
pub open spec fn seal_end_spec(end_offsets: Seq<u64>, ack_count: u32) -> Result<u64, ReplicationError> {
    match nth_largest_spec(end_offsets, (ack_count - 1) as nat) {
        Some(v) => Ok(v),
        None => Err(ReplicationError::Internal),
    }
}

/// Computes the confirm offset that `ack_count` replicas agree on (see `confirm_offset_spec`).
///
/// With confirm offsets `[1, 2, 3]` and `ack_count` 1, 2, 3 the result is 3, 2, 1; with
/// `[1, corrupted, 3]` it is 3, 1 and an error.
pub fn calculate_confirm_offset(replicas: &Vec<ReplicaState>, ack_count: u32) -> (r: Result<u64, ReplicationError>)
    requires
        replicas@.len() > 0 ==> ack_count >= 1,
    ensures
        r == confirm_offset_spec(replicas@, ack_count),
{
    if replicas.len() == 0 {
        return Err(ReplicationError::Internal);
    }
    let mut offsets: Vec<u64> = Vec::new();
    let mut i: usize = 0;
    while i < replicas.len()
        invariant
            i <= replicas@.len(),
            offsets@ == healthy_offsets(replicas@.subrange(0, i as int)),
        decreases replicas@.len() - i,
    {
        let r = replicas[i];
        let ghost next = replicas@.subrange(0, i + 1);
        assert(next.drop_last() == replicas@.subrange(0, i as int));
        assert(next.last() == r);
        assert(next.filter(|r: ReplicaState| !r.corrupted) == if !r.corrupted {
            next.drop_last().filter(|r: ReplicaState| !r.corrupted).push(r)
        } else {
            next.drop_last().filter(|r: ReplicaState| !r.corrupted)
        }) by {
            reveal_with_fuel(Seq::filter, 2);
        }
        if !r.corrupted {
            offsets.push(r.confirm_offset);
        }
        i = i + 1;
        assert(offsets@ =~= healthy_offsets(replicas@.subrange(0, i as int)));
    }
    assert(replicas@.subrange(0, replicas@.len() as int) == replicas@);
    match nth_largest(&offsets, (ack_count - 1) as usize) {
        Some(v) => Ok(v),
        None => Err(ReplicationError::Internal),
    }
}

/// The end offset of a range whose replicas reported `end_offsets` when sealed.
pub fn replicas_seal_end_offset(end_offsets: &Vec<u64>, ack_count: u32) -> (r: Result<u64, ReplicationError>)
    requires
        ack_count >= 1,
    ensures
        r == seal_end_spec(end_offsets@, ack_count),
{
    match nth_largest(end_offsets, (ack_count - 1) as usize) {
        Some(v) => Ok(v),
        None => Err(ReplicationError::Internal),
    }
}

/// Replication state of a range: confirm offset and status flags.
#[derive(Debug)]
pub struct ReplicationRange {
    metadata: RangeMetadata,
    /// Exclusive confirm offset.
    confirm_offset: u64,
    /// The range was created by the current stream, which writes to it.
    open_for_write: bool,
    /// Status flags: corrupted, sealing, sealed.
    status: u32,
}

impl ReplicationRange {
    pub closed spec fn spec_metadata(&self) -> RangeMetadata {
        self.metadata
    }

    pub closed spec fn spec_confirm_offset(&self) -> u64 {
        self.confirm_offset
    }

    pub closed spec fn spec_open_for_write(&self) -> bool {
        self.open_for_write
    }

    pub closed spec fn spec_status(&self) -> u32 {
        self.status
    }

    pub open spec fn spec_is_sealed(&self) -> bool {
        self.spec_status() & SEALED_FLAG != 0
    }

    pub open spec fn spec_is_sealing(&self) -> bool {
        self.spec_status() & SEALING_FLAG != 0
    }

    pub open spec fn spec_is_writable(&self) -> bool {
        self.spec_status() == 0 && self.spec_open_for_write()
    }

    /// A range as described by `metadata`: a sealed one confirms up to its end, an open one
    /// up to its start.
    pub fn new(metadata: RangeMetadata, open_for_write: bool) -> (r: ReplicationRange)
        ensures
            r.spec_metadata() == metadata,
            r.spec_open_for_write() == open_for_write,
            r.spec_confirm_offset() == match metadata.end {
                Some(end) => end,
                None => metadata.start,
            },
            r.spec_status() == if metadata.end is Some { SEALED_FLAG } else { 0 },
    {
        let confirm_offset = match metadata.end() {
            Some(end) => end,
            None => metadata.start(),
        };
        let status = if metadata.end().is_some() { SEALED_FLAG } else { 0 };
        ReplicationRange { metadata, confirm_offset, open_for_write, status }
    }

    pub fn metadata(&self) -> (m: &RangeMetadata)
        ensures
            *m == self.spec_metadata(),
    {
        &self.metadata
    }

    pub fn confirm_offset(&self) -> (c: u64)
        ensures
            c == self.spec_confirm_offset(),
    {
        self.confirm_offset
    }

    pub fn is_sealed(&self) -> (b: bool)
        ensures
            b == self.spec_is_sealed(),
    {
        self.status & SEALED_FLAG != 0
    }

    pub fn is_sealing(&self) -> (b: bool)
        ensures
            b == self.spec_is_sealing(),
    {
        self.status & SEALING_FLAG != 0
    }

    pub fn is_writable(&self) -> (b: bool)
        ensures
            b == self.spec_is_writable(),
    {
        self.status == 0 && self.open_for_write
    }

    pub fn mark_sealed(&mut self)
        ensures
            final(self).spec_status() == (old(self).spec_status() | SEALED_FLAG) & !SEALING_FLAG,
            final(self).spec_metadata() == old(self).spec_metadata(),
            final(self).spec_confirm_offset() == old(self).spec_confirm_offset(),
            final(self).spec_open_for_write() == old(self).spec_open_for_write(),
    {
        self.status = self.status | SEALED_FLAG;
        self.unmark_sealing();
    }

    pub fn mark_sealing(&mut self)
        ensures
            final(self).spec_status() == old(self).spec_status() | SEALING_FLAG,
            final(self).spec_metadata() == old(self).spec_metadata(),
            final(self).spec_confirm_offset() == old(self).spec_confirm_offset(),
            final(self).spec_open_for_write() == old(self).spec_open_for_write(),
    {
        self.status = self.status | SEALING_FLAG;
    }

    pub fn unmark_sealing(&mut self)
        ensures
            final(self).spec_status() == old(self).spec_status() & !SEALING_FLAG,
            final(self).spec_metadata() == old(self).spec_metadata(),
            final(self).spec_confirm_offset() == old(self).spec_confirm_offset(),
            final(self).spec_open_for_write() == old(self).spec_open_for_write(),
    {
        self.status = self.status & !SEALING_FLAG;
    }

    pub fn mark_corrupted(&mut self)
        ensures
            final(self).spec_status() == old(self).spec_status() | CORRUPTED_FLAG,
            final(self).spec_metadata() == old(self).spec_metadata(),
            final(self).spec_confirm_offset() == old(self).spec_confirm_offset(),
            final(self).spec_open_for_write() == old(self).spec_open_for_write(),
    {
        self.status = self.status | CORRUPTED_FLAG;
    }
}


impl ReplicationRange {
    /// Updates the confirm offset from the replicas' confirm offsets.
    ///
    /// Nothing happens unless the range is writable. If the replicas agree on a new confirm
    /// offset the range takes it; if they cannot agree the range is marked corrupted. Either
    /// change asks the stream to acknowledge.
    pub fn try_ack(&mut self, replicas: &Vec<ReplicaState>) -> (a: AckAction)
        requires
            old(self).spec_is_writable() && replicas@.len() > 0 ==> old(self).spec_metadata().ack_count >= 1,
        ensures
            final(self).spec_metadata() == old(self).spec_metadata(),
            final(self).spec_open_for_write() == old(self).spec_open_for_write(),
            !old(self).spec_is_writable() ==> a == AckAction::Nothing && final(self).spec_status()
                == old(self).spec_status() && final(self).spec_confirm_offset() == old(
                self,
            ).spec_confirm_offset(),
            old(self).spec_is_writable() ==> match confirm_offset_spec(
                replicas@,
                old(self).spec_metadata().ack_count,
            ) {
                Ok(c) => {
                    &&& final(self).spec_status() == old(self).spec_status()
                    &&& final(self).spec_confirm_offset() == c
                    &&& a == if c == old(self).spec_confirm_offset() {
                        AckAction::Nothing
                    } else {
                        AckAction::NotifyStream
                    }
                },
                Err(_) => {
                    &&& final(self).spec_status() == old(self).spec_status() | CORRUPTED_FLAG
                    &&& final(self).spec_confirm_offset() == old(self).spec_confirm_offset()
                    &&& a == AckAction::NotifyStream
                },
            },
    {
        if !self.is_writable() {
            return AckAction::Nothing;
        }
        match calculate_confirm_offset(replicas, self.metadata.ack_count()) {
            Ok(confirm_offset) => {
                if confirm_offset == self.confirm_offset {
                    AckAction::Nothing
                } else {
                    self.confirm_offset = confirm_offset;
                    AckAction::NotifyStream
                }
            },
            Err(_) => {
                self.mark_corrupted();
                AckAction::NotifyStream
            },
        }
    }

    /// Starts sealing the range and says what to do next.
    ///
    /// A sealed range answers its confirm offset; while a seal is under way, the caller
    /// awaits it. Otherwise the range turns to sealing: a range open for write seals at its
    /// confirm offset with the placement manager, any other range seals its replicas first.
    pub fn begin_seal(&mut self) -> (step: SealStep)
        ensures
            final(self).spec_metadata() == old(self).spec_metadata(),
            final(self).spec_open_for_write() == old(self).spec_open_for_write(),
            final(self).spec_confirm_offset() == old(self).spec_confirm_offset(),
            old(self).spec_is_sealed() ==> step == SealStep::Sealed(old(self).spec_confirm_offset())
                && final(self).spec_status() == old(self).spec_status(),
            !old(self).spec_is_sealed() && old(self).spec_is_sealing() ==> step
                == SealStep::AwaitSealTask && final(self).spec_status() == old(self).spec_status(),
            !old(self).spec_is_sealed() && !old(self).spec_is_sealing() ==> {
                &&& final(self).spec_status() == old(self).spec_status() | SEALING_FLAG
                &&& step == if old(self).spec_open_for_write() {
                    SealStep::SealPlacementManager(old(self).spec_confirm_offset())
                } else {
                    SealStep::SealReplicas
                }
            },
    {
        if self.is_sealed() {
            return SealStep::Sealed(self.confirm_offset);
        }
        if self.is_sealing() {
            return SealStep::AwaitSealTask;
        }
        self.mark_sealing();
        if self.open_for_write {
            SealStep::SealPlacementManager(self.confirm_offset)
        } else {
            SealStep::SealReplicas
        }
    }

    /// Takes the end offsets the replicas reported when sealed: the end offset to seal the
    /// range at with the placement manager, or, if the replicas do not agree, an error,
    /// and the range is no longer sealing.
    pub fn on_replicas_sealed(&mut self, end_offsets: &Vec<u64>) -> (r: Result<u64, ReplicationError>)
        requires
            old(self).spec_metadata().ack_count >= 1,
        ensures
            final(self).spec_metadata() == old(self).spec_metadata(),
            final(self).spec_open_for_write() == old(self).spec_open_for_write(),
            final(self).spec_confirm_offset() == old(self).spec_confirm_offset(),
            r == seal_end_spec(end_offsets@, old(self).spec_metadata().ack_count),
            r is Ok ==> final(self).spec_status() == old(self).spec_status(),
            r is Err ==> final(self).spec_status() == old(self).spec_status() & !SEALING_FLAG,
    {
        let r = replicas_seal_end_offset(end_offsets, self.metadata.ack_count());
        if r.is_err() {
            self.unmark_sealing();
        }
        r
    }

    /// The end offset to seal the replicas at once the placement manager has sealed the
    /// range at `end_offset`: a range open for write seals them at that offset, as a
    /// background task, after answering; any other range sealed its replicas before asking
    /// the placement manager, so none is left to seal.
    pub fn replicas_seal_after(&self, end_offset: u64) -> (target: Option<u64>)
        ensures
            target == if self.spec_open_for_write() {
                Some(end_offset)
            } else {
                None::<u64>
            },
    {
        if self.open_for_write {
            Some(end_offset)
        } else {
            None
        }
    }

    /// Takes the placement manager's answer to sealing the range at `end_offset`.
    ///
    /// On success the range is sealed (no longer sealing) and answers the end offset; a range
    /// not open for write takes it as its confirm offset. On failure the range is no longer
    /// sealing and the seal fails.
    pub fn on_placement_manager_sealed(&mut self, end_offset: u64, sealed: bool) -> (r: Result<u64, ReplicationError>)
        ensures
            final(self).spec_metadata() == old(self).spec_metadata(),
            final(self).spec_open_for_write() == old(self).spec_open_for_write(),
            sealed ==> {
                &&& r == Ok::<u64, ReplicationError>(end_offset)
                &&& final(self).spec_status() == (old(self).spec_status() | SEALED_FLAG) & !SEALING_FLAG
                &&& final(self).spec_confirm_offset() == if old(self).spec_open_for_write() {
                    old(self).spec_confirm_offset()
                } else {
                    end_offset
                }
            },
            !sealed ==> {
                &&& r == Err::<u64, ReplicationError>(ReplicationError::Internal)
                &&& final(self).spec_status() == old(self).spec_status() & !SEALING_FLAG
                &&& final(self).spec_confirm_offset() == old(self).spec_confirm_offset()
            },
    {
        if sealed {
            self.mark_sealed();
            if !self.open_for_write {
                self.confirm_offset = end_offset;
            }
            Ok(end_offset)
        } else {
            self.unmark_sealing();
            Err(ReplicationError::Internal)
        }
    }
}

/// Once sealed, a range stays sealed and no longer sealing, and sealing it again answers
/// the same offset.
pub proof fn lemma_sealed_status(status: u32)
    ensures
        ((status | SEALED_FLAG) & !SEALING_FLAG) & SEALED_FLAG != 0,
        ((status | SEALED_FLAG) & !SEALING_FLAG) & SEALING_FLAG == 0,
        (status & !SEALING_FLAG) & SEALING_FLAG == 0,
        status & SEALED_FLAG != 0 ==> (status & !SEALING_FLAG) & SEALED_FLAG != 0,
        status & SEALED_FLAG != 0 ==> (status | CORRUPTED_FLAG) & SEALED_FLAG != 0,
{
    assert(((status | 4u32) & !2u32) & 4u32 != 0) by (bit_vector);
    assert(((status | 4u32) & !2u32) & 2u32 == 0) by (bit_vector);
    assert((status & !2u32) & 2u32 == 0) by (bit_vector);
    assert(status & 4u32 != 0 ==> (status & !2u32) & 4u32 != 0) by (bit_vector);
    assert(status & 4u32 != 0 ==> (status | 1u32) & 4u32 != 0) by (bit_vector);
}

/// A range created from metadata with an end is sealed at that end: sealing it answers
/// that end at once, with no seal sent anywhere.
pub proof fn lemma_created_sealed(metadata: RangeMetadata, r: ReplicationRange)
    requires
        metadata.end is Some,
        r.spec_metadata() == metadata,
        r.spec_confirm_offset() == match metadata.end {
            Some(end) => end,
            None => metadata.start,
        },
        r.spec_status() == if metadata.end is Some { SEALED_FLAG } else { 0 },
    ensures
        r.spec_is_sealed(),
        r.spec_confirm_offset() == metadata.end->0,
{
    assert(4u32 & 4u32 != 0) by (bit_vector);
}

/// Once the placement manager confirmed a seal at `end_offset` (for a range open for
/// write, the confirm offset that `begin_seal` handed out), the range is sealed, no longer
/// sealing, and confirms `end_offset`: sealing it again answers `end_offset` at once and
/// changes nothing.
pub proof fn lemma_seal_is_final(before: ReplicationRange, after: ReplicationRange, end_offset: u64)
    requires
        before.spec_open_for_write() ==> end_offset == before.spec_confirm_offset(),
        after.spec_metadata() == before.spec_metadata(),
        after.spec_open_for_write() == before.spec_open_for_write(),
        after.spec_status() == (before.spec_status() | SEALED_FLAG) & !SEALING_FLAG,
        after.spec_confirm_offset() == if before.spec_open_for_write() {
            before.spec_confirm_offset()
        } else {
            end_offset
        },
    ensures
        after.spec_is_sealed(),
        !after.spec_is_sealing(),
        after.spec_confirm_offset() == end_offset,
{
    lemma_sealed_status(before.spec_status());
}

/// A sealed range is not writable, so acknowledging leaves it as it is.
pub proof fn lemma_sealed_not_writable(status: u32)
    ensures
        status & SEALED_FLAG != 0 ==> status != 0,
{
    assert(status & 4u32 != 0 ==> status != 0) by (bit_vector);
}

/// The end offset a sealed range settles on is the `ack_count`-th largest of all the end
/// offsets its replicas reported, whatever their order: one of them, with at least
/// `ack_count` reports at or above it and fewer than `ack_count` above it. There is one
/// exactly when at least `ack_count` replicas reported.
pub proof fn lemma_seal_end_is_kth_largest(end_offsets: Seq<u64>, ack_count: u32)
    requires
        ack_count >= 1,
    ensures
        seal_end_spec(end_offsets, ack_count) is Ok <==> end_offsets.len() >= ack_count,
        seal_end_spec(end_offsets, ack_count) matches Ok(v) ==> {
            &&& end_offsets.contains(v)
            &&& end_offsets.filter(at_least(v)).len() >= ack_count
            &&& end_offsets.filter(above(v)).len() < ack_count
        },
{
    lemma_nth_largest_rank(end_offsets, (ack_count - 1) as nat);
}

/// The confirm offset of a range is the `ack_count`-th largest confirm offset of its
/// healthy replicas, whatever their order: one of them, with at least `ack_count` healthy
/// replicas confirming at or above it and fewer than `ack_count` above it.
pub proof fn lemma_confirm_offset_is_kth_largest(replicas: Seq<ReplicaState>, ack_count: u32)
    requires
        ack_count >= 1,
    ensures
        confirm_offset_spec(replicas, ack_count) matches Ok(v) ==> {
            &&& healthy_offsets(replicas).contains(v)
            &&& healthy_offsets(replicas).filter(at_least(v)).len() >= ack_count
            &&& healthy_offsets(replicas).filter(above(v)).len() < ack_count
        },
{
    lemma_nth_largest_rank(healthy_offsets(replicas), (ack_count - 1) as nat);
}

/// Confirm offsets can only be agreed among healthy replicas: with no healthy replica at
/// least `ack_count` strong, the range cannot confirm.
pub proof fn lemma_confirm_needs_enough_replicas(replicas: Seq<ReplicaState>, ack_count: u32)
    requires
        ack_count >= 1,
    ensures
        confirm_offset_spec(replicas, ack_count) is Ok <==> healthy_offsets(replicas).len()
            >= ack_count,
{
    if replicas.len() == 0 {
        assert(replicas.filter(|r: ReplicaState| !r.corrupted).len() == 0) by {
            reveal_with_fuel(Seq::filter, 1);
        }
    }
}


/// Where an append lands in a range: its base offset and how many records it carries.
#[derive(Debug, Clone, Copy)]
pub struct RangeAppendContext {
    base_offset: u64,
    count: u32,
}

impl RangeAppendContext {
    pub closed spec fn spec_base_offset(&self) -> u64 {
        self.base_offset
    }

    pub closed spec fn spec_count(&self) -> u32 {
        self.count
    }

    pub fn new(base_offset: u64, count: u32) -> (c: RangeAppendContext)
        ensures
            c.spec_base_offset() == base_offset,
            c.spec_count() == count,
    {
        RangeAppendContext { base_offset, count }
    }

    pub fn base_offset(&self) -> (v: u64)
        ensures
            v == self.spec_base_offset(),
    {
        self.base_offset
    }

    pub fn count(&self) -> (v: u32)
        ensures
            v == self.spec_count(),
    {
        self.count
    }
}

} // verus!
