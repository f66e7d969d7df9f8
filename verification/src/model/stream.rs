//! A stream as one data node sees it: the ranges of the stream placed on that node.
use vstd::prelude::*;

use super::range_metadata::RangeMetadata;

verus! {

broadcast use {vstd::seq_lib::group_to_multiset_ensures, vstd::seq_lib::to_multiset_build, vstd::seq_lib::to_multiset_insert};

/// Why a stream refused to seal its last range.
#[derive(Debug, Clone, Copy, PartialEq, Eq, Structural)]
pub enum StreamError {
    AlreadySealed,
    RangeIndexMismatch { target: i32, actual: i32 },
    SealWrongNode,
}

/// Stream is the basic storage unit: records appended to it are stored in ranges.
///
/// Only the last range of a stream is mutable. `Stream` on a data node holds the
/// ranges of the stream placed onto that node.
#[derive(Debug)]
pub struct Stream {
    /// Stream ID, unique within the cluster.
    pub stream_id: i64,
    pub replica: u8,
    /// Retention period in milliseconds.
    pub retention_period_ms: u64,
    /// Ranges of the stream placed onto the current data node.
    pub ranges: Vec<RangeMetadata>,
}

/// Ranges in ascending order of index.
pub open spec fn sorted_by_index(s: Seq<RangeMetadata>) -> bool {
    forall|i: int, j: int| 0 <= i < j < s.len() ==> s[i].index <= s[j].index
}

/// The predicate "has index `v`".
pub open spec fn index_is(v: i32) -> spec_fn(RangeMetadata) -> bool {
    |r: RangeMetadata| r.index == v
}

/// The ranges of `s` with index `v`, in their order.
pub open spec fn with_index(s: Seq<RangeMetadata>, v: i32) -> Seq<RangeMetadata> {
    s.filter(index_is(v))
}

/// Nothing of `s` has index `v`.
proof fn lemma_with_index_none(s: Seq<RangeMetadata>, v: i32)
    requires
        forall|m: int| 0 <= m < s.len() ==> s[m].index != v,
    ensures
        with_index(s, v) == Seq::<RangeMetadata>::empty(),
    decreases s.len(),
{
    reveal(Seq::filter);
    if s.len() > 0 {
        lemma_with_index_none(s.drop_last(), v);
    }
}

/// `r` is the first of `s` that satisfies `p`, or `None` if none does.
pub open spec fn is_first_match(
    s: Seq<RangeMetadata>,
    p: spec_fn(RangeMetadata) -> bool,
    r: Option<RangeMetadata>,
) -> bool {
    match r {
        Some(x) => exists|k: int|
            0 <= k < s.len() && s[k] == x && p(x) && forall|j: int| 0 <= j < k ==> !p(#[trigger] s[j]),
        None => forall|k: int| 0 <= k < s.len() ==> !p(#[trigger] s[k]),
    }
}

/// The ranges of `incoming` whose index matches none of `present`.
pub open spec fn new_ranges(present: Seq<RangeMetadata>, incoming: Seq<RangeMetadata>) -> Seq<RangeMetadata> {
    incoming.filter(|r: RangeMetadata| !holds_index(present, r.index))
}

/// Refreshing appends exactly the incoming ranges whose index no held range has, in their
/// order: a range of `incoming` is among those appended iff every range of `present` has
/// another index, and everything appended comes from `incoming`.
pub proof fn lemma_refresh_appends_unheld_indexes(present: Seq<RangeMetadata>, incoming: Seq<RangeMetadata>)
    ensures
        forall|i: int| 0 <= i < incoming.len() ==> (new_ranges(present, incoming).contains(
            #[trigger] incoming[i],
        ) <== forall|m: int| 0 <= m < present.len() ==> present[m].index != incoming[i].index),
        forall|r: RangeMetadata| #[trigger] new_ranges(present, incoming).contains(r) ==> incoming.contains(r)
            && forall|m: int| 0 <= m < present.len() ==> present[m].index != r.index,
        new_ranges(present, incoming).len() <= incoming.len(),
    decreases incoming.len(),
{
    reveal(Seq::filter);
    if incoming.len() > 0 {
        let init = incoming.drop_last();
        let x = incoming.last();
        lemma_refresh_appends_unheld_indexes(present, init);
        let r0 = new_ranges(present, init);
        let unheld = forall|m: int| 0 <= m < present.len() ==> present[m].index != x.index;
        assert(unheld <==> !holds_index(present, x.index)) by {
            if !unheld {
                let m = choose|m: int| 0 <= m < present.len() && present[m].index == x.index;
                assert(present[m].index == x.index);
            }
        }
        assert forall|i: int| 0 <= i < incoming.len() implies (new_ranges(present, incoming).contains(
            #[trigger] incoming[i],
        ) <== forall|m: int| 0 <= m < present.len() ==> present[m].index != incoming[i].index) by {
            if forall|m: int| 0 <= m < present.len() ==> present[m].index != incoming[i].index {
                if i < init.len() {
                    assert(init[i] == incoming[i]);
                    assert(r0.contains(init[i]));
                    let k = choose|k: int| 0 <= k < r0.len() && r0[k] == init[i];
                    if unheld {
                        assert(r0.push(x)[k] == incoming[i]);
                    }
                } else {
                    assert(incoming[i] == x);
                    assert(r0.push(x)[r0.len() as int] == x);
                }
            }
        }
        assert forall|r: RangeMetadata| #[trigger] new_ranges(present, incoming).contains(r) implies incoming.contains(r)
            && forall|m: int| 0 <= m < present.len() ==> present[m].index != r.index by {
            let nr = new_ranges(present, incoming);
            let k = choose|k: int| 0 <= k < nr.len() && nr[k] == r;
            if k < r0.len() {
                assert(nr[k] == r0[k]);
                assert(r0.contains(r));
                let j = choose|j: int| 0 <= j < init.len() && init[j] == r;
                assert(incoming[j] == r);
            } else {
                assert(r == x);
                assert(incoming[incoming.len() - 1] == r);
            }
        }
    }
}

/// Some range of `present` has the given index.
pub open spec fn holds_index(present: Seq<RangeMetadata>, index: i32) -> bool {
    exists|m: int| 0 <= m < present.len() && #[trigger] present[m].index == index
}

impl Default for Stream {
    fn default() -> (s: Stream)
        ensures
            s.stream_id == 0,
            s.replica == 0,
            s.retention_period_ms == 0,
            s.ranges@ == Seq::<RangeMetadata>::empty(),
    {
        Stream { stream_id: 0, replica: 0, retention_period_ms: 0, ranges: Vec::new() }
    }
}

impl Stream {
    pub fn push(&mut self, range: RangeMetadata)
        ensures
            final(self).ranges@ == old(self).ranges@.push(range),
            final(self).stream_id == old(self).stream_id,
            final(self).replica == old(self).replica,
            final(self).retention_period_ms == old(self).retention_period_ms,
    {
        self.ranges.push(range);
    }

    /// Orders the ranges by index; ranges of the same index keep their order.
    pub fn sort(&mut self)
        ensures
            sorted_by_index(final(self).ranges@),
            final(self).ranges@.to_multiset() == old(self).ranges@.to_multiset(),
            forall|v: i32| #[trigger] with_index(final(self).ranges@, v) == with_index(old(self).ranges@, v),
            final(self).stream_id == old(self).stream_id,
            final(self).replica == old(self).replica,
            final(self).retention_period_ms == old(self).retention_period_ms,
    {
        let n = self.ranges.len();
        let mut out: Vec<RangeMetadata> = Vec::new();
        let mut i: usize = 0;
        while i < n
            invariant
                n == self.ranges@.len(),
                self.ranges@ == old(self).ranges@,
                self.stream_id == old(self).stream_id,
                self.replica == old(self).replica,
                self.retention_period_ms == old(self).retention_period_ms,
                i <= n,
                sorted_by_index(out@),
                out@.to_multiset() == self.ranges@.subrange(0, i as int).to_multiset(),
                forall|v: i32| #[trigger] with_index(out@, v) == with_index(self.ranges@.subrange(0, i as int), v),
            decreases n - i,
        {
            let x = self.ranges[i];
            let mut k: usize = 0;
            while k < out.len() && out[k].index <= x.index
                invariant
                    k <= out@.len(),
                    forall|m: int| 0 <= m < k ==> out@[m].index <= x.index,
                decreases out@.len() - k,
            {
                k = k + 1;
            }
            let ghost before = out@;
            out.insert(k, x);
            assert(out@ == before.insert(k as int, x));
            assert forall|a: int, b: int| 0 <= a < b < out@.len() implies out@[a].index
                <= out@[b].index by {
                if b < k {
                } else if b == k {
                } else if a < k {
                    assert(before[a].index <= x.index);
                    assert(k < before.len() ==> x.index < before[k as int].index);
                } else if a == k {
                    assert(x.index < before[k as int].index);
                } else {
                }
            }
            assert(self.ranges@.subrange(0, i + 1) == self.ranges@.subrange(0, i as int).push(x));
            proof {
                let pre = before.subrange(0, k as int);
                let post = before.subrange(k as int, before.len() as int);
                assert(before == pre + post);
                assert(out@ == pre + seq![x] + post);
                assert forall|m: int| 0 <= m < post.len() implies post[m].index > x.index by {
                    assert(before[k as int].index > x.index);
                    assert(before[k as int].index <= before[k + m].index);
                }
                assert forall|v: i32| #[trigger] with_index(out@, v) == with_index(
                    self.ranges@.subrange(0, i + 1),
                    v,
                ) by {
                    let p = index_is(v);
                    let a = self.ranges@.subrange(0, i as int);
                    assert(with_index(before, v) == with_index(a, v));
                    Seq::filter_distributes_over_add(pre, post, p);
                    Seq::filter_distributes_over_add(pre, seq![x], p);
                    Seq::filter_distributes_over_add(pre + seq![x], post, p);
                    a.lemma_filter_push(x, p);
                    Seq::<RangeMetadata>::empty().lemma_filter_push(x, p);
                    assert(seq![x] == Seq::<RangeMetadata>::empty().push(x));
                    assert(Seq::<RangeMetadata>::empty().filter(p) == Seq::<RangeMetadata>::empty()) by {
                        reveal(Seq::filter);
                    }
                    if v == x.index {
                        lemma_with_index_none(post, v);
                        assert(seq![x].filter(p) == seq![x]);
                        assert(pre.filter(p) + Seq::<RangeMetadata>::empty() == pre.filter(p));
                        assert(pre.filter(p) + seq![x] == pre.filter(p).push(x));
                    } else {
                        assert(seq![x].filter(p) == Seq::<RangeMetadata>::empty());
                        assert(pre.filter(p) + Seq::<RangeMetadata>::empty() == pre.filter(p));
                    }
                }
            }
            i = i + 1;
        }
        assert(self.ranges@.subrange(0, n as int) == self.ranges@);
        self.ranges = out;
    }

    /// Seals the last range at `committed`, if its index is `range_index` and it is open.
    pub fn seal(&mut self, committed: u64, range_index: i32) -> (r: Result<u64, StreamError>)
        ensures
            final(self).stream_id == old(self).stream_id,
            final(self).replica == old(self).replica,
            final(self).retention_period_ms == old(self).retention_period_ms,
            old(self).ranges@.len() == 0 ==> r == Err::<u64, StreamError>(StreamError::SealWrongNode)
                && final(self).ranges@ == old(self).ranges@,
            old(self).ranges@.len() > 0 ==> ({
                let last = old(self).ranges@.last();
                if last.index != range_index {
                    &&& r == Err::<u64, StreamError>(
                        StreamError::RangeIndexMismatch { target: range_index, actual: last.index },
                    )
                    &&& final(self).ranges@ == old(self).ranges@
                } else if last.spec_is_sealed() {
                    &&& r == Err::<u64, StreamError>(StreamError::AlreadySealed)
                    &&& final(self).ranges@ == old(self).ranges@
                } else {
                    &&& r == Ok::<u64, StreamError>(committed)
                    &&& final(self).ranges@ == old(self).ranges@.update(
                        old(self).ranges@.len() - 1,
                        RangeMetadata { end: Some(committed), ..last },
                    )
                }
            }),
    {
        let n = self.ranges.len();
        if n == 0 {
            return Err(StreamError::SealWrongNode);
        }
        let mut range = self.ranges[n - 1];
        if range.index() != range_index {
            return Err(StreamError::RangeIndexMismatch { target: range_index, actual: range.index() });
        }
        if range.is_sealed() {
            return Err(StreamError::AlreadySealed);
        }
        let res = range.seal(committed);
        self.ranges.set(n - 1, range);
        match res {
            Ok(end) => Ok(end),
            Err(_e) => Err(StreamError::AlreadySealed),
        }
    }

    /// A stream is mutable iff its last range is not sealed.
    pub fn is_mut(&self) -> (b: bool)
        ensures
            b == (self.ranges@.len() > 0 && !self.ranges@.last().spec_is_sealed()),
    {
        let n = self.ranges.len();
        if n == 0 {
            false
        } else {
            !self.ranges[n - 1].is_sealed()
        }
    }

    pub fn last(&self) -> (r: Option<&RangeMetadata>)
        ensures
            self.ranges@.len() == 0 ==> r is None,
            self.ranges@.len() > 0 ==> r == Some(&self.ranges@.last()),
    {
        let n = self.ranges.len();
        if n == 0 {
            None
        } else {
            Some(&self.ranges[n - 1])
        }
    }

    /// The first range with the given index.
    pub fn range(&self, index: i32) -> (r: Option<RangeMetadata>)
        ensures
            is_first_match(self.ranges@, |x: RangeMetadata| x.index == index, r),
    {
        let mut i: usize = 0;
        while i < self.ranges.len()
            invariant
                i <= self.ranges@.len(),
                forall|j: int| 0 <= j < i ==> #[trigger] self.ranges@[j].index != index,
            decreases self.ranges@.len() - i,
        {
            if self.ranges[i].index() == index {
                return Some(self.ranges[i]);
            }
            i = i + 1;
        }
        None
    }

    /// The first range that contains `offset`.
    pub fn range_of(&self, offset: u64) -> (r: Option<RangeMetadata>)
        ensures
            is_first_match(self.ranges@, |x: RangeMetadata| x.spec_contains(offset), r),
    {
        let mut i: usize = 0;
        while i < self.ranges.len()
            invariant
                i <= self.ranges@.len(),
                forall|j: int| 0 <= j < i ==> !(#[trigger] self.ranges@[j]).spec_contains(offset),
            decreases self.ranges@.len() - i,
        {
            if self.ranges[i].contains(offset) {
                return Some(self.ranges[i]);
            }
            i = i + 1;
        }
        None
    }

    /// Appends the ranges whose index the stream does not hold yet, in their order.
    pub fn refresh(&mut self, ranges: Vec<RangeMetadata>)
        ensures
            final(self).ranges@ == old(self).ranges@ + new_ranges(old(self).ranges@, ranges@),
            final(self).stream_id == old(self).stream_id,
            final(self).replica == old(self).replica,
            final(self).retention_period_ms == old(self).retention_period_ms,
    {
        let ghost present = self.ranges@;
        let mut to_append: Vec<RangeMetadata> = Vec::new();
        let mut i: usize = 0;
        while i < ranges.len()
            invariant
                i <= ranges@.len(),
                self.ranges@ == present,
                present == old(self).ranges@,
                to_append@ == new_ranges(present, ranges@.subrange(0, i as int)),
            decreases ranges@.len() - i,
        {
            let r = ranges[i];
            let mut found = false;
            let mut j: usize = 0;
            while j < self.ranges.len()
                invariant
                    j <= self.ranges@.len(),
                    found == exists|m: int| 0 <= m < j && #[trigger] self.ranges@[m].index == r.index,
                decreases self.ranges@.len() - j,
            {
                if self.ranges[j].index() == r.index() {
                    found = true;
                }
                j = j + 1;
            }
            assert(found == holds_index(present, r.index));
            let ghost next = ranges@.subrange(0, i + 1);
            assert(next.drop_last() == ranges@.subrange(0, i as int));
            assert(next.last() == r);
            assert(new_ranges(present, next) == if !holds_index(present, r.index) {
                new_ranges(present, next.drop_last()).push(r)
            } else {
                new_ranges(present, next.drop_last())
            }) by {
                reveal_with_fuel(Seq::filter, 2);
            }
            if !found {
                to_append.push(r);
            }
            i = i + 1;
        }
        assert(ranges@.subrange(0, ranges@.len() as int) == ranges@);
        let mut k: usize = 0;
        let ghost base = self.ranges@;
        while k < to_append.len()
            invariant
                k <= to_append@.len(),
                self.ranges@ == base + to_append@.subrange(0, k as int),
                base == old(self).ranges@,
                self.stream_id == old(self).stream_id,
                self.replica == old(self).replica,
                self.retention_period_ms == old(self).retention_period_ms,
            decreases to_append@.len() - k,
        {
            self.ranges.push(to_append[k]);
            k = k + 1;
            assert(self.ranges@ =~= base + to_append@.subrange(0, k as int));
        }
        assert(to_append@.subrange(0, k as int) == to_append@);
    }
}

} // verus!
