//! Ordering of writes to partly filled pages of the write-ahead log.
//!
//! The ring gives no ordering among the requests in flight, so a write to a page that is
//! only partly filled holds back any further write to that page until it completes.
use vstd::prelude::*;

use std::collections::{HashMap, HashSet};
use vstd::std_specs::iter::IteratorSpec;

verus! {

broadcast use vstd::std_specs::hash::group_hash_axioms;

/// `out` releases, in the order of `offsets`, the writes of `blocked` at those offsets.
pub open spec fn released_in_order<E>(blocked: Map<u64, E>, offsets: Seq<u64>, out: Seq<E>) -> bool {
    &&& offsets.no_duplicates()
    &&& out.len() == offsets.len()
    &&& forall|i: int| 0 <= i < out.len() ==> #[trigger] out[i] == blocked[offsets[i]]
}

/// The pages with a partly filled write in flight, and the writes held back behind them,
/// by page offset. `E` is the prepared write request.
pub struct WriteBarrier<E> {
    barrier: HashSet<u64>,
    blocked: HashMap<u64, E>,
}

impl<E> WriteBarrier<E> {
    /// Offsets of the pages with a partly filled write in flight.
    pub closed spec fn spec_barrier(&self) -> Set<u64> {
        self.barrier@
    }

    /// The writes held back, by page offset.
    pub closed spec fn spec_blocked(&self) -> Map<u64, E> {
        self.blocked@
    }

    pub fn new() -> (b: WriteBarrier<E>)
        ensures
            b.spec_barrier() == Set::<u64>::empty(),
            b.spec_blocked() == Map::<u64, E>::empty(),
    {
        WriteBarrier { barrier: HashSet::new(), blocked: HashMap::new() }
    }

    /// Routes a write to the page at `offset`: behind a write in flight to that page it is
    /// held back, taking the place of a write held back there before; otherwise it goes out
    /// now, and if it fills the page only in part, the page is barred until it completes.
    pub fn route(&mut self, offset: u64, partial: bool, write: E) -> (out: Option<E>)
        ensures
            old(self).spec_barrier().contains(offset) ==> {
                &&& out is None
                &&& final(self).spec_blocked() == old(self).spec_blocked().insert(offset, write)
                &&& final(self).spec_barrier() == old(self).spec_barrier()
            },
            !old(self).spec_barrier().contains(offset) ==> {
                &&& out == Some(write)
                &&& final(self).spec_blocked() == old(self).spec_blocked()
                &&& final(self).spec_barrier() == if partial {
                    old(self).spec_barrier().insert(offset)
                } else {
                    old(self).spec_barrier()
                }
            },
    {
        if self.barrier.contains(&offset) {
            self.blocked.insert(offset, write);
            None
        } else {
            if partial {
                self.barrier.insert(offset);
            }
            Some(write)
        }
    }

    /// A write to the page at `offset` completed: the page is no longer barred.
    pub fn on_completed(&mut self, offset: u64)
        ensures
            final(self).spec_barrier() == old(self).spec_barrier().remove(offset),
            final(self).spec_blocked() == old(self).spec_blocked(),
    {
        self.barrier.remove(&offset);
    }

    /// Takes out the held-back writes whose page is no longer barred, to go out now; the
    /// others stay held back.
    pub fn release(&mut self) -> (out: Vec<E>)
        ensures
            final(self).spec_barrier() == old(self).spec_barrier(),
            final(self).spec_blocked() == old(self).spec_blocked().restrict(old(self).spec_barrier()),
            exists|offsets: Seq<u64>|
                #![trigger released_in_order(old(self).spec_blocked(), offsets, out@)]
                released_in_order(old(self).spec_blocked(), offsets, out@) && offsets.to_set()
                    == old(self).spec_blocked().dom().difference(old(self).spec_barrier()),
    {
        let ghost all = self.blocked@;
        let ghost bar = self.barrier@;
        let mut keys: Vec<u64> = Vec::new();
        for k in it: self.blocked.keys()
            invariant
                it.seq() == vstd::std_specs::hash::spec_keys_iter(&self.blocked).remaining(),
                keys@ == it.seq().take(it.index()).map_values(|r: &u64| *r),
        {
            keys.push(*k);
        }
        proof {
            let rem = vstd::std_specs::hash::spec_keys_iter(&self.blocked).remaining();
            assert(keys@ == rem.map_values(|r: &u64| *r));
            assert(rem.unref() == rem.map_values(|r: &u64| *r));
        }
        let mut out: Vec<E> = Vec::new();
        let ghost mut offsets: Seq<u64> = Seq::empty();
        let mut i: usize = 0;
        while i < keys.len()
            invariant
                i <= keys.len(),
                keys@.no_duplicates(),
                keys@.to_set() == all.dom(),
                self.barrier@ == bar,
                released_in_order(all, offsets, out@),
                forall|x: u64| #[trigger] offsets.contains(x) <==> (keys@.take(i as int).contains(x)
                    && !bar.contains(x)),
                forall|x: u64| #[trigger] self.blocked@.contains_key(x) <==> (all.contains_key(x) && (
                !keys@.take(i as int).contains(x) || bar.contains(x))),
                forall|x: u64| self.blocked@.contains_key(x) ==> #[trigger] self.blocked@[x] == all[x],
            decreases keys.len() - i,
        {
            let k = keys[i];
            proof {
                assert(keys@.to_set().contains(k));
                assert(!keys@.take(i as int).contains(k)) by {
                    if keys@.take(i as int).contains(k) {
                        let j = choose|j: int| 0 <= j < i && keys@.take(i as int)[j] == k;
                        assert(keys@[j] == keys@[i as int]);
                    }
                }
                assert(keys@.take(i + 1) == keys@.take(i as int).push(k));
                assert(self.blocked@.contains_key(k));
                assert forall|x: u64| #[trigger] keys@.take(i + 1).contains(x) <==> (keys@.take(
                    i as int,
                ).contains(x) || x == k) by {
                    let before = keys@.take(i as int);
                    let after = keys@.take(i + 1);
                    if before.contains(x) {
                        let j = choose|j: int| 0 <= j < before.len() && before[j] == x;
                        assert(after[j] == x);
                    }
                    if x == k {
                        assert(after[i as int] == x);
                    }
                    if after.contains(x) && x != k {
                        let j = choose|j: int| 0 <= j < after.len() && after[j] == x;
                        assert(before[j] == x);
                    }
                }
            }
            if !self.barrier.contains(&k) {
                let taken = self.blocked.remove(&k);
                match taken {
                    Some(write) => {
                        proof {
                            assert(!offsets.contains(k));
                            assert forall|a: int, b: int|
                                0 <= a < b < offsets.push(k).len() implies offsets.push(k)[a] != offsets.push(
                                k,
                            )[b] by {
                                if b == offsets.len() {
                                    assert(offsets.contains(offsets[a]));
                                }
                            }
                            assert forall|x: u64| #[trigger] offsets.push(k).contains(x) <==> (offsets.contains(x)
                                || x == k) by {
                                if offsets.push(k).contains(x) && x != k {
                                    let j = choose|j: int| 0 <= j < offsets.len() + 1 && offsets.push(k)[j] == x;
                                    assert(offsets[j] == x);
                                }
                                if offsets.contains(x) {
                                    let j = choose|j: int| 0 <= j < offsets.len() && offsets[j] == x;
                                    assert(offsets.push(k)[j] == x);
                                }
                                if x == k {
                                    assert(offsets.push(k)[offsets.len() as int] == x);
                                }
                            }
                            offsets = offsets.push(k);
                        }
                        out.push(write);
                    },
                    None => {},
                }
            }
            i = i + 1;
        }
        proof {
            assert(keys@.take(keys@.len() as int) == keys@);
            assert forall|x: u64| offsets.to_set().contains(x) <==> all.dom().difference(bar).contains(x) by {
                if all.contains_key(x) {
                    assert(keys@.to_set().contains(x));
                }
            }
            assert(offsets.to_set() =~= all.dom().difference(bar));
            assert forall|x: u64| self.blocked@.contains_key(x) <==> all.restrict(bar).contains_key(x) by {
                if all.contains_key(x) {
                    assert(keys@.to_set().contains(x));
                }
            }
            assert(self.blocked@ =~= all.restrict(bar));
        }
        out
    }
}

} // verus!
