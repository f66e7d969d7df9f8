//! The writes of the I/O loop that wait for the write-ahead log to be committed.
use vstd::prelude::*;

verus! {

/// Positions strictly ascending.
pub open spec fn ascending_positions<T>(s: Seq<(u64, Option<u32>, T)>) -> bool {
    forall|i: int, j: int| 0 <= i < j < s.len() ==> s[i].0 < s[j].0
}

/// A recorded length fits before the end position of its write.
pub open spec fn length_fits<T>(e: (u64, Option<u32>, T)) -> bool {
    match e.1 {
        Some(l) => l <= e.0,
        None => true,
    }
}

/// Every write records its length only where that length fits before its end position.
pub open spec fn lengths_fit<T>(s: Seq<(u64, Option<u32>, T)>) -> bool {
    forall|i: int| 0 <= i < s.len() ==> length_fits(#[trigger] s[i])
}

/// The acknowledgements for completed writes `s`, in order: the WAL offset a write starts
/// at (its end position less its length), its length and what waits on it. A write without
/// a recorded length is dropped.
pub open spec fn write_acks<T>(s: Seq<(u64, Option<u32>, T)>) -> Seq<(u64, u32, T)>
    decreases s.len(),
{
    if s.len() == 0 {
        Seq::empty()
    } else {
        let rest = write_acks(s.drop_last());
        match s.last().1 {
            Some(l) => rest.push(((s.last().0 - l) as u64, l, s.last().2)),
            None => rest,
        }
    }
}

/// Writes in flight, by the WAL position their record ends at, each with the length written
/// (if known) and what waits on it.
pub struct InflightWrites<T> {
    entries: Vec<(u64, Option<u32>, T)>,
}

impl<T> InflightWrites<T> {
    /// The writes in ascending order of end position.
    pub closed spec fn spec_entries(&self) -> Seq<(u64, Option<u32>, T)> {
        self.entries@
    }

    /// No position twice, and each recorded length fits before its end position.
    pub open spec fn wf(&self) -> bool {
        &&& ascending_positions(self.spec_entries())
        &&& lengths_fit(self.spec_entries())
    }

    pub fn new() -> (w: InflightWrites<T>)
        ensures
            w.wf(),
            w.spec_entries() == Seq::<(u64, Option<u32>, T)>::empty(),
    {
        InflightWrites { entries: Vec::new() }
    }

    /// Records a write that ends at `position`; it takes the place of one recorded there.
    pub fn insert(&mut self, position: u64, written_len: Option<u32>, task: T)
        requires
            old(self).wf(),
            written_len matches Some(l) ==> l <= position,
        ensures
            final(self).wf(),
            forall|e: (u64, Option<u32>, T)| #[trigger] final(self).spec_entries().contains(e) <==> (e
                == (position, written_len, task) || (old(self).spec_entries().contains(e) && e.0
                != position)),
    {
        let ghost old_s = self.entries@;
        let ghost new_e = (position, written_len, task);
        let mut k: usize = 0;
        while k < self.entries.len() && self.entries[k].0 < position
            invariant
                k <= self.entries@.len(),
                self.entries@ == old_s,
                forall|m: int| 0 <= m < k ==> self.entries@[m].0 < position,
            decreases self.entries@.len() - k,
        {
            k = k + 1;
        }
        if k < self.entries.len() && self.entries[k].0 == position {
            self.entries.set(k, (position, written_len, task));
            assert forall|e: (u64, Option<u32>, T)| #[trigger] self.entries@.contains(e) <==> (e == new_e
                || (old_s.contains(e) && e.0 != position)) by {
                if self.entries@.contains(e) {
                    let i = choose|i: int| 0 <= i < self.entries@.len() && self.entries@[i] == e;
                    if i != k {
                        assert(old_s[i] == e);
                        assert(old_s[i].0 != old_s[k as int].0);
                    }
                }
                if old_s.contains(e) && e.0 != position {
                    let i = choose|i: int| 0 <= i < old_s.len() && old_s[i] == e;
                    assert(i != k);
                    assert(self.entries@[i] == e);
                }
                if e == new_e {
                    assert(self.entries@[k as int] == e);
                }
            }
            assert(lengths_fit(self.entries@)) by {
                assert forall|i: int| 0 <= i < self.entries@.len() implies length_fits(#[trigger] self.entries@[i]) by {
                    if i != k {
                        assert(self.entries@[i] == old_s[i]);
                    }
                }
            }
        } else {
            self.entries.insert(k, (position, written_len, task));
            assert(self.entries@ == old_s.insert(k as int, new_e));
            assert forall|e: (u64, Option<u32>, T)| #[trigger] self.entries@.contains(e) <==> (e == new_e
                || (old_s.contains(e) && e.0 != position)) by {
                if self.entries@.contains(e) {
                    let i = choose|i: int| 0 <= i < self.entries@.len() && self.entries@[i] == e;
                    if i < k {
                        assert(old_s[i] == e);
                    } else if i > k {
                        assert(old_s[i - 1] == e);
                    }
                }
                if old_s.contains(e) && e.0 != position {
                    let i = choose|i: int| 0 <= i < old_s.len() && old_s[i] == e;
                    if i < k {
                        assert(self.entries@[i] == e);
                    } else {
                        assert(self.entries@[i + 1] == e);
                    }
                }
                if e == new_e {
                    assert(self.entries@[k as int] == e);
                }
            }
            assert(ascending_positions(self.entries@)) by {
                assert forall|a: int, b: int| 0 <= a < b < self.entries@.len() implies self.entries@[a].0
                    < self.entries@[b].0 by {
                    if b < k {
                        assert(self.entries@[a] == old_s[a] && self.entries@[b] == old_s[b]);
                    } else if b == k {
                        assert(self.entries@[a] == old_s[a]);
                    } else if a < k {
                        assert(self.entries@[a] == old_s[a] && self.entries@[b] == old_s[b - 1]);
                        assert(k < old_s.len() ==> old_s[k as int].0 > position);
                    } else if a == k {
                        assert(self.entries@[b] == old_s[b - 1]);
                        assert(old_s[k as int].0 > position);
                    } else {
                        assert(self.entries@[a] == old_s[a - 1] && self.entries@[b] == old_s[b - 1]);
                    }
                }
            }
            assert(lengths_fit(self.entries@)) by {
                assert forall|i: int| 0 <= i < self.entries@.len() implies length_fits(#[trigger] self.entries@[i]) by {
                    if i < k {
                        assert(self.entries@[i] == old_s[i]);
                    } else if i > k {
                        assert(self.entries@[i] == old_s[i - 1]);
                    }
                }
            }
        }
    }

    /// Completes the writes that end at or before the committed position `committed`, in
    /// ascending order of position, and answers their acknowledgements; the later writes
    /// stay in flight.
    pub fn complete(&mut self, committed: u64) -> (acks: Vec<(u64, u32, T)>)
        requires
            old(self).wf(),
        ensures
            final(self).wf(),
            exists|p: int|
                #![trigger old(self).spec_entries().subrange(0, p)]
                0 <= p <= old(self).spec_entries().len() && (forall|i: int|
                    0 <= i < p ==> #[trigger] old(self).spec_entries()[i].0 <= committed) && (forall|i: int|
                    p <= i < old(self).spec_entries().len() ==> #[trigger] old(self).spec_entries()[i].0
                    > committed) && final(self).spec_entries() == old(self).spec_entries().subrange(
                    p,
                    old(self).spec_entries().len() as int,
                ) && acks@ == write_acks(old(self).spec_entries().subrange(0, p)),
    {
        let ghost s = self.entries@;
        let mut p: usize = 0;
        while p < self.entries.len() && self.entries[p].0 <= committed
            invariant
                p <= s.len(),
                self.entries@ == s,
                forall|i: int| 0 <= i < p ==> #[trigger] s[i].0 <= committed,
            decreases s.len() - p,
        {
            p = p + 1;
        }
        assert forall|i: int| p <= i < s.len() implies #[trigger] s[i].0 > committed by {
            if i > p {
                assert(s[p as int].0 < s[i].0);
            }
        }
        let mut done = self.entries.split_off(p);
        std::mem::swap(&mut self.entries, &mut done);
        assert(self.entries@ == s.subrange(p as int, s.len() as int));
        assert(done@ == s.subrange(0, p as int));
        assert(ascending_positions(self.entries@)) by {
            assert forall|a: int, b: int| 0 <= a < b < self.entries@.len() implies self.entries@[a].0
                < self.entries@[b].0 by {
                assert(self.entries@[a] == s[a + p] && self.entries@[b] == s[b + p]);
            }
        }
        assert(lengths_fit(self.entries@)) by {
            assert forall|i: int| 0 <= i < self.entries@.len() implies length_fits(#[trigger] self.entries@[i]) by {
                assert(self.entries@[i] == s[i + p]);
            }
        }
        let ghost prefix = s.subrange(0, p as int);
        let mut acks: Vec<(u64, u32, T)> = Vec::new();
        let mut taken: usize = 0;
        while done.len() > 0
            invariant
                taken <= p,
                taken + done@.len() == p,
                done@ == prefix.subrange(taken as int, p as int),
                prefix.len() == p,
                lengths_fit(prefix),
                acks@ == write_acks(prefix.subrange(0, taken as int)),
            decreases done@.len(),
        {
            let (position, written_len, task) = done.remove(0);
            assert(prefix[taken as int] == (position, written_len, task));
            assert(prefix.subrange(0, taken + 1).drop_last() == prefix.subrange(0, taken as int));
            assert(prefix.subrange(0, taken + 1).last() == prefix[taken as int]);
            match written_len {
                Some(l) => {
                    assert(l <= position);
                    acks.push((position - l as u64, l, task));
                },
                None => {},
            }
            taken = taken + 1;
            assert(done@ =~= prefix.subrange(taken as int, p as int));
        }
        assert(prefix.subrange(0, p as int) == prefix);
        acks
    }
}

} // verus!
