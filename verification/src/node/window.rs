//! The append window of a stream range: it lets append requests through to the store in
//! offset order.
use vstd::prelude::*;

use std::collections::HashSet;

verus! {

broadcast use vstd::std_specs::hash::group_hash_axioms;

/// Why an append request was not let through.
#[derive(Debug, Clone, PartialEq, Eq)]
pub enum ServiceError {
    /// The request's offset is already committed; the client may treat it as a success.
    OffsetCommitted,
    /// The request's offset is already in the window; the client should await the earlier
    /// request and retry if needed.
    OffsetInWindow,
    /// The request could not be awaited.
    Internal(String),
}

/// What to do with an admitted append request.
#[derive(Debug, Clone, Copy, PartialEq, Eq, Structural)]
pub enum Admission {
    /// Dispatch the request to the store now.
    Go,
    /// Queue the request until the requests before it are committed.
    Wait,
}

/// Submitted requests in ascending offset order, no offset twice.
pub open spec fn ascending(s: Seq<(u64, u32)>) -> bool {
    forall|i: int, j: int| 0 <= i < j < s.len() ==> s[i].0 < s[j].0
}

/// Every submitted request ends within the range of `u64`.
pub open spec fn bounded(s: Seq<(u64, u32)>) -> bool {
    forall|i: int| 0 <= i < s.len() ==> s[i].0 + s[i].1 <= u64::MAX
}

/// The submitted requests as a map from offset to batch length.
pub open spec fn as_map(s: Seq<(u64, u32)>) -> Map<u64, u32>
    decreases s.len(),
{
    if s.len() == 0 {
        Map::empty()
    } else {
        as_map(s.drop_last()).insert(s.last().0, s.last().1)
    }
}

/// Commits the drained requests `drained` in order, starting from offset `start` with
/// `queued` requests waiting: the committed offset reached, the waiting offsets woken in
/// order, and the offsets still waiting.
pub open spec fn commit_run(drained: Seq<(u64, u32)>, start: u64, queued: Set<u64>) -> (
    u64,
    Seq<u64>,
    Set<u64>,
)
    decreases drained.len(),
{
    if drained.len() == 0 {
        (start, Seq::empty(), queued)
    } else {
        let (res, woken, waiting) = commit_run(drained.drop_last(), start, queued);
        let (offset, len) = drained.last();
        let end = (offset + len) as u64;
        let res1 = if end > res { end } else { res };
        if waiting.contains(res1) {
            (res1, woken.push(res1), waiting.remove(res1))
        } else {
            (res1, woken, waiting)
        }
    }
}

/// The window `after` is `before` with the requests at or below `offset` committed:
/// the first `p` submitted requests, which are exactly those at or below `offset`, are
/// drained, and `res` and `woken` are the committed offset and the woken offsets.
pub open spec fn commit_outcome(
    before: Window,
    after: Window,
    offset: u64,
    p: int,
    res: u64,
    woken: Seq<u64>,
) -> bool {
    let s = before.spec_submitted();
    &&& 0 <= p <= s.len()
    &&& forall|i: int| 0 <= i < p ==> #[trigger] s[i].0 <= offset
    &&& forall|i: int| p <= i < s.len() ==> #[trigger] s[i].0 > offset
    &&& after.spec_submitted() == s.subrange(p, s.len() as int)
    &&& commit_run(s.subrange(0, p), offset, before.spec_queued()) == (res, woken, after.spec_queued())
    &&& after.spec_committed() == res
    &&& after.spec_next() == if before.spec_next() >= res {
        before.spec_next()
    } else {
        res
    }
}

/// Lets the append requests of a stream range through to the store in offset order.
///
/// Not thread-safe: a window belongs to one thread.
#[derive(Debug)]
pub struct Window {
    /// The barrier offset: requests beyond it are held back.
    next: u64,
    /// All requests before this offset are persisted to the store.
    committed: u64,
    /// Submitted requests: offset and batch length, ascending by offset.
    submitted: Vec<(u64, u32)>,
    /// Offsets of the requests waiting for prior requests to complete.
    queued: HashSet<u64>,
}

impl Window {
    pub closed spec fn spec_next(&self) -> u64 {
        self.next
    }

    pub closed spec fn spec_committed(&self) -> u64 {
        self.committed
    }

    pub closed spec fn spec_submitted(&self) -> Seq<(u64, u32)> {
        self.submitted@
    }

    pub closed spec fn spec_queued(&self) -> Set<u64> {
        self.queued@
    }

    /// The window's invariant: submitted requests ascend by offset and end within `u64`.
    pub open spec fn wf(&self) -> bool {
        &&& ascending(self.spec_submitted())
        &&& bounded(self.spec_submitted())
    }

    pub fn new(next: u64) -> (w: Window)
        ensures
            w.wf(),
            w.spec_next() == next,
            w.spec_committed() == next,
            w.spec_submitted() == Seq::<(u64, u32)>::empty(),
            w.spec_queued() == Set::<u64>::empty(),
    {
        Window { next, committed: next, submitted: Vec::new(), queued: HashSet::new() }
    }

    pub fn next(&self) -> (n: u64)
        ensures
            n == self.spec_next(),
    {
        self.next
    }

    pub fn committed(&self) -> (c: u64)
        ensures
            c == self.spec_committed(),
    {
        self.committed
    }

    pub fn reset_next(&mut self, next: u64)
        requires
            old(self).wf(),
        ensures
            final(self).wf(),
            final(self).spec_next() == next,
            final(self).spec_committed() == old(self).spec_committed(),
            final(self).spec_submitted() == old(self).spec_submitted(),
            final(self).spec_queued() == old(self).spec_queued(),
    {
        self.next = next;
    }
}


impl Window {
    /// Decides on an append request of `len` records at `offset`.
    ///
    /// A request below the committed offset, or inside the window, is refused. Otherwise
    /// it is recorded as submitted: at the barrier offset it goes at once and moves the
    /// barrier past itself; beyond the barrier it waits.
    pub fn submit(&mut self, offset: u64, len: u32) -> (r: Result<Admission, ServiceError>)
        requires
            old(self).wf(),
            offset >= old(self).spec_committed() && offset >= old(self).spec_next() ==> offset + len <= u64::MAX,
        ensures
            final(self).wf(),
            final(self).spec_committed() == old(self).spec_committed(),
            offset < old(self).spec_committed() ==> r == Err::<Admission, ServiceError>(
                ServiceError::OffsetCommitted,
            ) && *final(self) == *old(self),
            old(self).spec_committed() <= offset < old(self).spec_next() ==> r == Err::<
                Admission,
                ServiceError,
            >(ServiceError::OffsetInWindow) && *final(self) == *old(self),
            offset >= old(self).spec_committed() && offset >= old(self).spec_next() ==> {
                &&& forall|e: (u64, u32)| #[trigger]
                    final(self).spec_submitted().contains(e) <==> (e == (offset, len) || (old(
                        self,
                    ).spec_submitted().contains(e) && e.0 != offset))
                &&& offset == old(self).spec_next() ==> {
                    &&& r == Ok::<Admission, ServiceError>(Admission::Go)
                    &&& final(self).spec_next() == old(self).spec_next() + len
                    &&& final(self).spec_queued() == old(self).spec_queued()
                }
                &&& offset != old(self).spec_next() ==> {
                    &&& r == Ok::<Admission, ServiceError>(Admission::Wait)
                    &&& final(self).spec_next() == old(self).spec_next()
                    &&& final(self).spec_queued() == old(self).spec_queued().insert(offset)
                }
            },
    {
        if offset < self.committed {
            return Err(ServiceError::OffsetCommitted);
        }
        if offset < self.next {
            return Err(ServiceError::OffsetInWindow);
        }
        let ghost old_sub = self.submitted@;
        let mut k: usize = 0;
        while k < self.submitted.len() && self.submitted[k].0 < offset
            invariant
                k <= self.submitted@.len(),
                self.submitted@ == old_sub,
                forall|m: int| 0 <= m < k ==> self.submitted@[m].0 < offset,
            decreases self.submitted@.len() - k,
        {
            k = k + 1;
        }
        if k < self.submitted.len() && self.submitted[k].0 == offset {
            self.submitted.set(k, (offset, len));
            assert forall|e: (u64, u32)| #[trigger] self.submitted@.contains(e) <==> (e == (
                offset,
                len,
            ) || (old_sub.contains(e) && e.0 != offset)) by {
                if self.submitted@.contains(e) {
                    let i = choose|i: int| 0 <= i < self.submitted@.len() && self.submitted@[i] == e;
                    if i != k {
                        assert(old_sub[i] == e);
                        assert(old_sub[i].0 != old_sub[k as int].0);
                    }
                }
                if old_sub.contains(e) && e.0 != offset {
                    let i = choose|i: int| 0 <= i < old_sub.len() && old_sub[i] == e;
                    assert(i != k);
                    assert(self.submitted@[i] == e);
                }
                if e == (offset, len) {
                    assert(self.submitted@[k as int] == e);
                }
            }
        } else {
            self.submitted.insert(k, (offset, len));
            assert(self.submitted@ == old_sub.insert(k as int, (offset, len)));
            assert forall|e: (u64, u32)| #[trigger] self.submitted@.contains(e) <==> (e == (
                offset,
                len,
            ) || (old_sub.contains(e) && e.0 != offset)) by {
                if self.submitted@.contains(e) {
                    let i = choose|i: int| 0 <= i < self.submitted@.len() && self.submitted@[i] == e;
                    if i < k {
                        assert(old_sub[i] == e);
                    } else if i > k {
                        assert(old_sub[i - 1] == e);
                    }
                }
                if old_sub.contains(e) && e.0 != offset {
                    let i = choose|i: int| 0 <= i < old_sub.len() && old_sub[i] == e;
                    if i < k {
                        assert(self.submitted@[i] == e);
                    } else {
                        assert(self.submitted@[i + 1] == e);
                    }
                }
                if e == (offset, len) {
                    assert(self.submitted@[k as int] == e);
                }
            }
        }
        if offset == self.next {
            self.next = self.next + len as u64;
            return Ok(Admission::Go);
        }
        self.queued.insert(offset);
        Ok(Admission::Wait)
    }
}


impl Window {
    /// Commits the requests up to `offset` and wakes the waiting requests they reach.
    ///
    /// The submitted requests at or below `offset` are drained in ascending order; the
    /// committed offset becomes the furthest end among them (at least `offset`), and every
    /// time it moves onto the offset of a waiting request, that request is woken. The barrier
    /// never moves backwards. Also used at start-up to set the committed and next offsets.
    ///
    /// Answers the new committed offset and the offsets woken, in order.
    pub fn commit(&mut self, offset: u64) -> (r: (u64, Vec<u64>))
        requires
            old(self).wf(),
        ensures
            final(self).wf(),
            exists|p: int| #[trigger] commit_outcome(*old(self), *final(self), offset, p, r.0, r.1@),
    {
        let ghost s = self.submitted@;
        let ghost q0 = self.spec_queued();
        let ghost next0 = self.next;
        let mut res = offset;
        let mut woken: Vec<u64> = Vec::new();
        let mut p: usize = 0;
        while p < self.submitted.len() && self.submitted[p].0 <= offset
            invariant
                self.wf(),
                self.submitted@ == s,
                self.next == next0,
                p <= s.len(),
                forall|i: int| 0 <= i < p ==> #[trigger] s[i].0 <= offset,
                (res, woken@, self.spec_queued()) == commit_run(s.subrange(0, p as int), offset, q0),
            decreases s.len() - p,
        {
            let (k, len) = self.submitted[p];
            assert(s.subrange(0, p + 1).drop_last() == s.subrange(0, p as int));
            assert(s.subrange(0, p + 1).last() == (k, len));
            let end = k + len as u64;
            if end > res {
                res = end;
            }
            if self.queued.remove(&res) {
                woken.push(res);
            }
            p = p + 1;
        }
        let ghost drained = s.subrange(0, p as int);
        assert forall|i: int| p <= i < s.len() implies #[trigger] s[i].0 > offset by {
            if i > p {
                assert(s[p as int].0 < s[i].0);
            }
        }
        let rest = self.submitted.split_off(p);
        self.submitted = rest;
        assert(self.submitted@ == s.subrange(p as int, s.len() as int));
        assert(ascending(self.submitted@));
        assert(bounded(self.submitted@));
        if res > self.next {
            self.next = res;
        }
        self.committed = res;
        let r = (res, woken);
        assert(commit_outcome(*old(self), *self, offset, p as int, r.0, r.1@));
        r
    }
}


/// Committing never sets the committed offset below the requested one, and only wakes
/// requests that were waiting, which then wait no more.
pub proof fn lemma_commit_run_bounds(drained: Seq<(u64, u32)>, start: u64, queued: Set<u64>)
    ensures
        ({
            let (res, woken, waiting) = commit_run(drained, start, queued);
            &&& res >= start
            &&& forall|x: u64| #[trigger] waiting.contains(x) ==> queued.contains(x)
            &&& forall|i: int| 0 <= i < woken.len() ==> queued.contains(#[trigger] woken[i])
                && !waiting.contains(woken[i])
        }),
    decreases drained.len(),
{
    if drained.len() > 0 {
        lemma_commit_run_bounds(drained.drop_last(), start, queued);
    }
}

/// After a commit, the committed offset is at least the requested offset and never beyond
/// the barrier offset.
pub proof fn lemma_commit_within_window(
    before: Window,
    after: Window,
    offset: u64,
    p: int,
    res: u64,
    woken: Seq<u64>,
)
    requires
        commit_outcome(before, after, offset, p, res, woken),
    ensures
        offset <= after.spec_committed() <= after.spec_next(),
        after.spec_next() >= before.spec_next(),
{
    lemma_commit_run_bounds(
        before.spec_submitted().subrange(0, p),
        offset,
        before.spec_queued(),
    );
}

/// Draining requests that end within `u64` moves the committed offset to the furthest end
/// among them, or leaves it where it starts if none reaches further.
pub proof fn lemma_commit_run_furthest_end(drained: Seq<(u64, u32)>, start: u64, queued: Set<u64>)
    requires
        bounded(drained),
    ensures
        ({
            let res = commit_run(drained, start, queued).0;
            &&& res >= start
            &&& forall|i: int| 0 <= i < drained.len() ==> res >= #[trigger] drained[i].0 + drained[i].1
            &&& res == start || exists|i: int| 0 <= i < drained.len() && res == #[trigger] drained[i].0 + drained[i].1
        }),
    decreases drained.len(),
{
    if drained.len() > 0 {
        let init = drained.drop_last();
        assert(bounded(init)) by {
            assert forall|i: int| 0 <= i < init.len() implies init[i].0 + init[i].1 <= u64::MAX by {
                assert(init[i] == drained[i]);
            }
        }
        lemma_commit_run_furthest_end(init, start, queued);
        let prev = commit_run(init, start, queued).0;
        let last = drained.len() - 1;
        assert(drained[last] == drained.last());
        assert forall|i: int| 0 <= i < drained.len() implies commit_run(drained, start, queued).0 >= #[trigger] drained[i].0
            + drained[i].1 by {
            if i < last {
                assert(init[i] == drained[i]);
            }
        }
        if commit_run(drained, start, queued).0 != start {
            if commit_run(drained, start, queued).0 == prev {
                let j = choose|j: int| 0 <= j < init.len() && prev == #[trigger] init[j].0 + init[j].1;
                assert(init[j] == drained[j]);
            }
        }
    }
}

/// After a commit of a well-formed window, the committed offset is the furthest end of the
/// drained requests, or the requested offset if none reaches further.
pub proof fn lemma_commit_reaches_furthest_end(
    before: Window,
    after: Window,
    offset: u64,
    p: int,
    res: u64,
    woken: Seq<u64>,
)
    requires
        before.wf(),
        commit_outcome(before, after, offset, p, res, woken),
    ensures
        after.spec_committed() >= offset,
        forall|i: int| 0 <= i < p ==> after.spec_committed() >= #[trigger] before.spec_submitted()[i].0
            + before.spec_submitted()[i].1,
        after.spec_committed() == offset || exists|i: int| 0 <= i < p && after.spec_committed()
            == #[trigger] before.spec_submitted()[i].0 + before.spec_submitted()[i].1,
{
    let s = before.spec_submitted();
    let d = s.subrange(0, p);
    assert(bounded(d)) by {
        assert forall|i: int| 0 <= i < d.len() implies d[i].0 + d[i].1 <= u64::MAX by {
            assert(d[i] == s[i]);
        }
    }
    lemma_commit_run_furthest_end(d, offset, before.spec_queued());
    assert forall|i: int| 0 <= i < p implies after.spec_committed() >= #[trigger] s[i].0 + s[i].1 by {
        assert(d[i] == s[i]);
    }
    if after.spec_committed() != offset {
        let j = choose|j: int| 0 <= j < d.len() && after.spec_committed() == #[trigger] d[j].0 + d[j].1;
        assert(d[j] == s[j]);
    }
}

} // verus!
