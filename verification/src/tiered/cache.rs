//! Accounting of the records a data node holds in memory before they move to object
//! storage.
use vstd::prelude::*;

verus! {

/// A range of a stream.
#[derive(Debug, Clone, Copy, PartialEq, Eq, Structural)]
pub struct RangeKey {
    pub stream_id: u64,
    pub range_index: u32,
}

/// What the storage does next after a record arrived.
#[derive(Debug, Clone, Copy, PartialEq, Eq, Structural)]
pub enum Offload {
    /// Nothing more for this record.
    Done,
    /// Offload a part of the range that took the record, then report the size change with
    /// `on_current_offloaded`.
    Current,
    /// Offload a part of this part-full range if the storage still holds it, then report
    /// the size change, or `None` when it does not hold the range, with
    /// `on_part_full_offloaded`.
    PartFull(RangeKey),
}

#[derive(Debug, Clone, Copy, PartialEq, Eq, Structural)]
pub enum Phase {
    Idle,
    AwaitCurrent,
    Sweeping,
}

/// `x` read as an unsigned 64-bit number, two's complement.
pub open spec fn as_unsigned(x: i64) -> int {
    if x >= 0 {
        x as int
    } else {
        x + 0x1_0000_0000_0000_0000
    }
}

/// `x` read as a signed 64-bit number, two's complement.
pub open spec fn as_signed(x: u64) -> int {
    if x <= i64::MAX {
        x as int
    } else {
        x - 0x1_0000_0000_0000_0000
    }
}

pub(crate) fn unsigned_of(x: i64) -> (r: u64)
    ensures
        r == as_unsigned(x),
{
    if x >= 0 {
        x as u64
    } else {
        ((x + 1) + i64::MAX) as u64 + (i64::MAX as u64 + 1)
    }
}

fn signed_of(x: u64) -> (r: i64)
    ensures
        r == as_signed(x),
{
    if x <= i64::MAX as u64 {
        x as i64
    } else {
        ((x - i64::MAX as u64 - 1) as i64) + i64::MIN
    }
}

/// The keys of `s` that `gone` does not hold, in order.
pub open spec fn without(s: Seq<RangeKey>, gone: Seq<RangeKey>) -> Seq<RangeKey>
    decreases s.len(),
{
    if s.len() == 0 {
        Seq::empty()
    } else {
        let rest = without(s.drop_last(), gone);
        if gone.contains(s.last()) {
            rest
        } else {
            rest.push(s.last())
        }
    }
}

/// `without` keeps exactly the keys that are not gone, and repeats none.
pub proof fn lemma_without(s: Seq<RangeKey>, gone: Seq<RangeKey>)
    ensures
        forall|k: RangeKey| #[trigger] without(s, gone).contains(k) <==> s.contains(k) && !gone.contains(k),
        s.no_duplicates() ==> without(s, gone).no_duplicates(),
    decreases s.len(),
{
    if s.len() > 0 {
        let init = s.drop_last();
        lemma_without(init, gone);
        let rest = without(init, gone);
        assert forall|k: RangeKey| #[trigger] without(s, gone).contains(k) <==> s.contains(k)
            && !gone.contains(k) by {
            if s.contains(k) && !(init.contains(k)) {
                let j = choose|j: int| 0 <= j < s.len() && s[j] == k;
                if j < s.len() - 1 {
                    assert(init[j] == k);
                }
            }
            if init.contains(k) {
                let j = choose|j: int| 0 <= j < init.len() && init[j] == k;
                assert(s[j] == k);
            }
            if !gone.contains(s.last()) {
                assert(rest.push(s.last())[rest.len() as int] == s.last());
                if rest.push(s.last()).contains(k) && k != s.last() {
                    let j = choose|j: int| 0 <= j < rest.len() + 1 && rest.push(s.last())[j] == k;
                    assert(rest[j] == k);
                }
                if rest.contains(k) {
                    let j = choose|j: int| 0 <= j < rest.len() && rest[j] == k;
                    assert(rest.push(s.last())[j] == k);
                }
            }
            if k == s.last() {
                assert(s[s.len() - 1] == k);
            }
        }
        if s.no_duplicates() {
            assert(init.no_duplicates()) by {
                assert forall|i: int, j: int| 0 <= i < init.len() && 0 <= j < init.len() && i != j implies init[i]
                    != init[j] by {
                    assert(s[i] == init[i] && s[j] == init[j]);
                }
            }
            if !gone.contains(s.last()) {
                assert(!rest.contains(s.last())) by {
                    if init.contains(s.last()) {
                        let j = choose|j: int| 0 <= j < init.len() && init[j] == s.last();
                        assert(s[j] == s[s.len() - 1]);
                    }
                }
                let pushed = rest.push(s.last());
                assert forall|i: int, j: int| 0 <= i < pushed.len() && 0 <= j < pushed.len() && i != j implies pushed[i]
                    != pushed[j] by {
                    if i < rest.len() && j < rest.len() {
                        assert(pushed[i] == rest[i] && pushed[j] == rest[j]);
                    } else if i < rest.len() {
                        assert(rest.contains(pushed[i]));
                    } else if j < rest.len() {
                        assert(rest.contains(pushed[j]));
                    }
                }
            }
        }
    }
}

/// The size of the records held in memory and the ranges with a part ready to offload.
///
/// When a record arrives, its range reports how the held size changed and whether it now
/// has a full part. Below the cache limit, a part-full range is remembered. At or above it,
/// the range that took the record offloads a part if it has a full one, and then the
/// remembered ranges offload theirs, in turn, until the held size falls below the low
/// watermark; each range that offloaded is forgotten.
///
/// The limit is compared with the held size read as an unsigned number, the watermark
/// with itself read as a signed one.
pub struct CacheBudget {
    cache_size: i64,
    max_cache_size: u64,
    low_watermark: u64,
    part_full: Vec<RangeKey>,
    phase: Phase,
    cursor: usize,
    offloaded: Vec<RangeKey>,
}

impl CacheBudget {
    pub closed spec fn spec_cache_size(&self) -> i64 {
        self.cache_size
    }

    pub closed spec fn spec_max_cache_size(&self) -> u64 {
        self.max_cache_size
    }

    pub closed spec fn spec_low_watermark(&self) -> u64 {
        self.low_watermark
    }

    /// The remembered part-full ranges, in the order they are offloaded.
    pub closed spec fn spec_part_full(&self) -> Seq<RangeKey> {
        self.part_full@
    }

    pub closed spec fn spec_phase(&self) -> Phase {
        self.phase
    }

    /// During a sweep: the position of the range being offloaded.
    pub closed spec fn spec_cursor(&self) -> nat {
        self.cursor as nat
    }

    /// During a sweep: the ranges that offloaded so far.
    pub closed spec fn spec_offloaded(&self) -> Seq<RangeKey> {
        self.offloaded@
    }

    /// No range is remembered twice; a sweep points at a remembered range.
    pub open spec fn wf(&self) -> bool {
        &&& self.spec_part_full().no_duplicates()
        &&& self.spec_phase() == Phase::Sweeping ==> self.spec_cursor() < self.spec_part_full().len()
    }

    /// Whether the held size is below the cache limit.
    pub open spec fn below_limit(cache_size: i64, max_cache_size: u64) -> bool {
        as_unsigned(cache_size) < max_cache_size
    }

    /// Whether the held size is below the low watermark.
    pub open spec fn below_watermark(cache_size: i64, low_watermark: u64) -> bool {
        cache_size < as_signed(low_watermark)
    }

    pub fn new(max_cache_size: u64, low_watermark: u64) -> (b: CacheBudget)
        ensures
            b.wf(),
            b.spec_cache_size() == 0,
            b.spec_max_cache_size() == max_cache_size,
            b.spec_low_watermark() == low_watermark,
            b.spec_part_full() == Seq::<RangeKey>::empty(),
            b.spec_phase() == Phase::Idle,
    {
        CacheBudget {
            cache_size: 0,
            max_cache_size,
            low_watermark,
            part_full: Vec::new(),
            phase: Phase::Idle,
            cursor: 0,
            offloaded: Vec::new(),
        }
    }

    pub fn cache_size(&self) -> (s: i64)
        ensures
            s == self.spec_cache_size(),
    {
        self.cache_size
    }

    pub fn part_full(&self) -> (p: &Vec<RangeKey>)
        ensures
            p@ == self.spec_part_full(),
    {
        &self.part_full
    }

    fn remembers(&self, key: RangeKey) -> (b: bool)
        ensures
            b == self.part_full@.contains(key),
    {
        let mut i: usize = 0;
        while i < self.part_full.len()
            invariant
                i <= self.part_full@.len(),
                forall|j: int| 0 <= j < i ==> self.part_full@[j] != key,
            decreases self.part_full@.len() - i,
        {
            if self.part_full[i] == key {
                assert(self.part_full@[i as int] == key);
                return true;
            }
            i = i + 1;
        }
        false
    }

    /// Starts offloading the remembered ranges, if there are any.
    fn start_sweep(&mut self) -> (o: Offload)
        requires
            old(self).wf(),
        ensures
            final(self).wf(),
            final(self).spec_cache_size() == old(self).spec_cache_size(),
            final(self).spec_max_cache_size() == old(self).spec_max_cache_size(),
            final(self).spec_low_watermark() == old(self).spec_low_watermark(),
            final(self).spec_part_full() == old(self).spec_part_full(),
            old(self).spec_part_full().len() == 0 ==> o == Offload::Done && final(self).spec_phase() == Phase::Idle,
            old(self).spec_part_full().len() > 0 ==> o == Offload::PartFull(old(self).spec_part_full()[0])
                && final(self).spec_phase() == Phase::Sweeping && final(self).spec_cursor() == 0
                && final(self).spec_offloaded() == Seq::<RangeKey>::empty(),
    {
        if self.part_full.len() == 0 {
            self.phase = Phase::Idle;
            Offload::Done
        } else {
            self.phase = Phase::Sweeping;
            self.cursor = 0;
            self.offloaded = Vec::new();
            Offload::PartFull(self.part_full[0])
        }
    }

    /// Ends a sweep: the ranges that offloaded are forgotten.
    fn finish_sweep(&mut self)
        requires
            old(self).wf(),
        ensures
            final(self).wf(),
            final(self).spec_cache_size() == old(self).spec_cache_size(),
            final(self).spec_max_cache_size() == old(self).spec_max_cache_size(),
            final(self).spec_low_watermark() == old(self).spec_low_watermark(),
            final(self).spec_part_full() == without(old(self).spec_part_full(), old(self).spec_offloaded()),
            final(self).spec_phase() == Phase::Idle,
    {
        let mut kept: Vec<RangeKey> = Vec::new();
        let mut i: usize = 0;
        while i < self.part_full.len()
            invariant
                i <= self.part_full@.len(),
                kept@ == without(self.part_full@.subrange(0, i as int), self.offloaded@),
            decreases self.part_full@.len() - i,
        {
            let k = self.part_full[i];
            let mut gone = false;
            let mut j: usize = 0;
            while j < self.offloaded.len()
                invariant
                    j <= self.offloaded@.len(),
                    gone == self.offloaded@.subrange(0, j as int).contains(k),
                decreases self.offloaded@.len() - j,
            {
                proof {
                    let pre = self.offloaded@.subrange(0, j as int);
                    let post = self.offloaded@.subrange(0, j + 1);
                    assert(post == pre.push(self.offloaded@[j as int]));
                    if pre.contains(k) {
                        let w = choose|w: int| 0 <= w < pre.len() && pre[w] == k;
                        assert(post[w] == k);
                    }
                    if self.offloaded@[j as int] == k {
                        assert(post[j as int] == k);
                    }
                    if post.contains(k) && self.offloaded@[j as int] != k {
                        let w = choose|w: int| 0 <= w < post.len() && post[w] == k;
                        assert(pre[w] == k);
                    }
                }
                if self.offloaded[j] == k {
                    gone = true;
                }
                j = j + 1;
            }
            assert(self.offloaded@.subrange(0, self.offloaded@.len() as int) == self.offloaded@);
            assert(self.part_full@.subrange(0, i + 1).drop_last() == self.part_full@.subrange(0, i as int));
            if !gone {
                kept.push(k);
            }
            i = i + 1;
        }
        assert(self.part_full@.subrange(0, self.part_full@.len() as int) == self.part_full@);
        proof {
            lemma_without(self.part_full@, self.offloaded@);
        }
        self.part_full = kept;
        self.phase = Phase::Idle;
    }

    /// Takes in how the range that received a record changed: the held size moves by
    /// `size_change`, and `part_full` says whether the range now has a full part.
    pub fn on_accumulated(&mut self, key: RangeKey, size_change: i64, part_full: bool) -> (o: Offload)
        requires
            old(self).wf(),
            old(self).spec_phase() == Phase::Idle,
            i64::MIN <= old(self).spec_cache_size() + size_change <= i64::MAX,
        ensures
            final(self).wf(),
            final(self).spec_max_cache_size() == old(self).spec_max_cache_size(),
            final(self).spec_low_watermark() == old(self).spec_low_watermark(),
            final(self).spec_cache_size() == old(self).spec_cache_size() + size_change,
            ({
                let size = old(self).spec_cache_size() + size_change;
                let before = old(self).spec_part_full();
                if Self::below_limit(size as i64, old(self).spec_max_cache_size()) {
                    &&& o == Offload::Done
                    &&& final(self).spec_phase() == Phase::Idle
                    &&& final(self).spec_part_full() == if part_full && !before.contains(key) {
                        before.push(key)
                    } else {
                        before
                    }
                } else if part_full {
                    &&& o == Offload::Current
                    &&& final(self).spec_phase() == Phase::AwaitCurrent
                    &&& final(self).spec_part_full() == before
                } else {
                    &&& final(self).spec_part_full() == before
                    &&& before.len() == 0 ==> o == Offload::Done && final(self).spec_phase() == Phase::Idle
                    &&& before.len() > 0 ==> o == Offload::PartFull(before[0]) && final(self).spec_phase()
                        == Phase::Sweeping && final(self).spec_cursor() == 0
                        && final(self).spec_offloaded() == Seq::<RangeKey>::empty()
                }
            }),
    {
        self.cache_size = self.cache_size + size_change;
        if unsigned_of(self.cache_size) < self.max_cache_size {
            if part_full && !self.remembers(key) {
                proof {
                    let s = self.part_full@;
                    let p = s.push(key);
                    assert forall|i: int, j: int| 0 <= i < p.len() && 0 <= j < p.len() && i != j implies p[i]
                        != p[j] by {
                        if i < s.len() && j < s.len() {
                            assert(p[i] == s[i] && p[j] == s[j]);
                        } else if i < s.len() {
                            assert(s.contains(p[i]));
                        } else if j < s.len() {
                            assert(s.contains(p[j]));
                        }
                    }
                }
                self.part_full.push(key);
            }
            Offload::Done
        } else if part_full {
            self.phase = Phase::AwaitCurrent;
            Offload::Current
        } else {
            self.start_sweep()
        }
    }

    /// Takes in the size change of offloading a part of the range that received the
    /// record, and goes on with the remembered ranges.
    pub fn on_current_offloaded(&mut self, size_change: i64) -> (o: Offload)
        requires
            old(self).wf(),
            old(self).spec_phase() == Phase::AwaitCurrent,
            i64::MIN <= old(self).spec_cache_size() + size_change <= i64::MAX,
        ensures
            final(self).wf(),
            final(self).spec_max_cache_size() == old(self).spec_max_cache_size(),
            final(self).spec_low_watermark() == old(self).spec_low_watermark(),
            final(self).spec_cache_size() == old(self).spec_cache_size() + size_change,
            final(self).spec_part_full() == old(self).spec_part_full(),
            old(self).spec_part_full().len() == 0 ==> o == Offload::Done && final(self).spec_phase() == Phase::Idle,
            old(self).spec_part_full().len() > 0 ==> o == Offload::PartFull(old(self).spec_part_full()[0])
                && final(self).spec_phase() == Phase::Sweeping && final(self).spec_cursor() == 0
                && final(self).spec_offloaded() == Seq::<RangeKey>::empty(),
    {
        self.cache_size = self.cache_size + size_change;
        self.start_sweep()
    }

    /// Takes in the size change of offloading a part of the remembered range at the cursor,
    /// or `None` if the storage no longer holds that range; then offloads the next one, or
    /// ends the sweep once the held size is below the low watermark or every remembered
    /// range had its turn.
    pub fn on_part_full_offloaded(&mut self, size_change: Option<i64>) -> (o: Offload)
        requires
            old(self).wf(),
            old(self).spec_phase() == Phase::Sweeping,
            size_change matches Some(d) ==> i64::MIN <= old(self).spec_cache_size() + d <= i64::MAX,
        ensures
            final(self).wf(),
            final(self).spec_max_cache_size() == old(self).spec_max_cache_size(),
            final(self).spec_low_watermark() == old(self).spec_low_watermark(),
            ({
                let key = old(self).spec_part_full()[old(self).spec_cursor() as int];
                let size = match size_change {
                    Some(d) => old(self).spec_cache_size() + d,
                    None => old(self).spec_cache_size() as int,
                };
                let offloaded = if size_change is Some {
                    old(self).spec_offloaded().push(key)
                } else {
                    old(self).spec_offloaded()
                };
                let next = old(self).spec_cursor() + 1;
                let stop = (size_change is Some && Self::below_watermark(size as i64, old(self).spec_low_watermark()))
                    || next == old(self).spec_part_full().len();
                &&& final(self).spec_cache_size() == size
                &&& stop ==> o == Offload::Done && final(self).spec_phase() == Phase::Idle
                    && final(self).spec_part_full() == without(old(self).spec_part_full(), offloaded)
                &&& !stop ==> o == Offload::PartFull(old(self).spec_part_full()[next as int])
                    && final(self).spec_phase() == Phase::Sweeping && final(self).spec_cursor() == next
                    && final(self).spec_offloaded() == offloaded
                    && final(self).spec_part_full() == old(self).spec_part_full()
            }),
    {
        let key = self.part_full[self.cursor];
        match size_change {
            Some(d) => {
                self.cache_size = self.cache_size + d;
                self.offloaded.push(key);
                if self.cache_size < signed_of(self.low_watermark) {
                    self.finish_sweep();
                    return Offload::Done;
                }
            },
            None => {},
        }
        let n = self.part_full.len();
        self.cursor = self.cursor + 1;
        if self.cursor == n {
            self.phase = Phase::Idle;
            self.finish_sweep();
            Offload::Done
        } else {
            Offload::PartFull(self.part_full[self.cursor])
        }
    }
}

} // verus!
