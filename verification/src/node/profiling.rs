//! The flame graph profiler of a data node: when it writes a report, and which reports it
//! keeps.
use vstd::prelude::*;
use vstd::string::*;

verus! {

/// A file of the report directory: its name and, if known, its creation time.
#[derive(Debug, Clone)]
pub struct ReportFile {
    pub name: Vec<u8>,
    pub created: Option<u64>,
}

/// The name ends with `.svg`.
pub open spec fn is_report(name: Seq<u8>) -> bool {
    name.len() >= 4 && name[name.len() - 4] == 46u8 && name[name.len() - 3] == 115u8
        && name[name.len() - 2] == 118u8 && name[name.len() - 1] == 103u8
}

/// Age rank of a report: a file whose creation time is unknown counts as the oldest.
pub open spec fn age_rank(created: Option<u64>) -> int {
    match created {
        Some(t) => t + 1,
        None => 0,
    }
}

/// Number of reports among `files`.
pub open spec fn report_count(files: Seq<ReportFile>) -> nat
    decreases files.len(),
{
    if files.len() == 0 {
        0
    } else {
        report_count(files.drop_last()) + if is_report(files.last().name@) { 1nat } else { 0nat }
    }
}

fn ends_with_svg(name: &Vec<u8>) -> (b: bool)
    ensures
        b == is_report(name@),
{
    let n = name.len();
    n >= 4 && name[n - 4] == 46u8 && name[n - 3] == 115u8 && name[n - 2] == 118u8 && name[n
        - 1] == 103u8
}

/// The reports to delete so that at most `max_backup` remain: none if there are no more
/// than that, else the oldest ones, as many as exceed it. Answers their positions.
pub fn expired_reports(files: &Vec<ReportFile>, max_backup: usize) -> (removed: Vec<usize>)
    ensures
        removed@.no_duplicates(),
        forall|i: int| 0 <= i < removed@.len() ==> (#[trigger] removed@[i]) < files@.len()
            && is_report(files@[removed@[i] as int].name@),
        removed@.len() == if report_count(files@) > max_backup {
            report_count(files@) - max_backup
        } else {
            0
        },
        forall|i: int, k: int|
            #![trigger removed@[i], files@[k]]
            0 <= i < removed@.len() && 0 <= k < files@.len() && is_report(files@[k].name@)
                && !removed@.contains(k as usize) ==> age_rank(files@[removed@[i] as int].created)
                <= age_rank(files@[k].created),
{
    let n = files.len();
    let mut reports: Vec<usize> = Vec::new();
    let mut i: usize = 0;
    while i < n
        invariant
            n == files@.len(),
            i <= n,
            reports@.len() == report_count(files@.subrange(0, i as int)),
            reports@.no_duplicates(),
            forall|j: int| 0 <= j < reports@.len() ==> (#[trigger] reports@[j]) < i,
            forall|j: int| 0 <= j < reports@.len() ==> is_report(files@[#[trigger] reports@[j] as int].name@),
            forall|k: int| 0 <= k < i && is_report(files@[k].name@) ==> reports@.contains(k as usize),
        decreases n - i,
    {
        assert(files@.subrange(0, i + 1).drop_last() == files@.subrange(0, i as int));
        let ghost before = reports@;
        if ends_with_svg(&files[i].name) {
            reports.push(i);
            assert(reports@[reports@.len() - 1] == i);
            assert forall|k: int| 0 <= k < i + 1 && is_report(files@[k].name@) implies reports@.contains(k as usize) by {
                if k < i {
                    assert(before.contains(k as usize));
                    let w = choose|w: int| 0 <= w < before.len() && before[w] == k as usize;
                    assert(reports@[w] == k as usize);
                }
            }
            assert(reports@.no_duplicates()) by {
                assert forall|a: int, b: int| 0 <= a < b < reports@.len() implies reports@[a] != reports@[b] by {
                    if b == reports@.len() - 1 {
                        assert(before[a] < i);
                    }
                }
            }
        }
        i = i + 1;
    }
    assert(files@.subrange(0, n as int) == files@);
    let mut removed: Vec<usize> = Vec::new();
    if reports.len() <= max_backup {
        return removed;
    }
    let excess = reports.len() - max_backup;
    while removed.len() < excess
        invariant
            n == files@.len(),
            excess <= reports@.len(),
            reports@.len() == report_count(files@),
            excess == report_count(files@) - max_backup,
            removed@.len() <= excess,
            removed@.no_duplicates(),
            reports@.no_duplicates(),
            forall|j: int| 0 <= j < reports@.len() ==> (#[trigger] reports@[j]) < n,
            forall|j: int| 0 <= j < reports@.len() ==> is_report(files@[#[trigger] reports@[j] as int].name@),
            forall|k: int| 0 <= k < n && is_report(files@[k].name@) ==> reports@.contains(k as usize),
            forall|j: int| 0 <= j < removed@.len() ==> reports@.contains(#[trigger] removed@[j]),
            forall|j: int, k: int|
                #![trigger removed@[j], files@[k]]
                0 <= j < removed@.len() && 0 <= k < n && is_report(files@[k].name@)
                    && !removed@.contains(k as usize) ==> age_rank(files@[removed@[j] as int].created)
                    <= age_rank(files@[k].created),
        decreases excess - removed@.len(),
    {
        // Pick the oldest report not removed yet.
        let mut best: usize = 0;
        let mut found = false;
        let mut j: usize = 0;
        while j < reports.len()
            invariant
                n == files@.len(),
                j <= reports@.len(),
                forall|m: int| 0 <= m < reports@.len() ==> (#[trigger] reports@[m]) < n,
                found ==> best < n && reports@.contains(best) && !removed@.contains(best),
                found ==> forall|m: int| 0 <= m < j && !removed@.contains(#[trigger] reports@[m])
                    ==> age_rank(files@[best as int].created) <= age_rank(files@[reports@[m] as int].created),
                !found ==> forall|m: int| 0 <= m < j ==> removed@.contains(#[trigger] reports@[m]),
            decreases reports@.len() - j,
        {
            let cand = reports[j];
            let mut taken = false;
            let mut t: usize = 0;
            while t < removed.len()
                invariant
                    t <= removed@.len(),
                    taken == exists|u: int| 0 <= u < t && removed@[u] == cand,
                decreases removed@.len() - t,
            {
                if removed[t] == cand {
                    taken = true;
                }
                t = t + 1;
            }
            if !taken {
                let older = if !found {
                    true
                } else {
                    match (&files[cand].created, &files[best].created) {
                        (None, _) => true,
                        (Some(_), None) => false,
                        (Some(a), Some(b)) => *a < *b,
                    }
                };
                if older {
                    best = cand;
                    found = true;
                }
            }
            j = j + 1;
        }
        proof {
            if !found {
                // Every report is removed already, yet fewer than `excess` are removed.
                assert(forall|m: int| 0 <= m < reports@.len() ==> removed@.contains(#[trigger] reports@[m]));
                lemma_covered_len(reports@, removed@);
                assert(false);
            }
        }
        let ghost before = removed@;
        removed.push(best);
        assert(removed@.no_duplicates()) by {
            assert forall|a: int, b: int| 0 <= a < b < removed@.len() implies removed@[a] != removed@[b] by {
                if b == removed@.len() - 1 {
                    assert(before.contains(removed@[a]));
                }
            }
        }
        assert forall|jj: int, k: int|
            #![trigger removed@[jj], files@[k]]
            0 <= jj < removed@.len() && 0 <= k < n && is_report(files@[k].name@)
                && !removed@.contains(k as usize) implies age_rank(files@[removed@[jj] as int].created)
                <= age_rank(files@[k].created) by {
            if before.contains(k as usize) {
                let w = choose|w: int| 0 <= w < before.len() && before[w] == k as usize;
                assert(removed@[w] == k as usize);
            }
            if jj < before.len() {
                assert(removed@[jj] == before[jj]);
            } else {
                assert(reports@.contains(k as usize));
                let m = choose|m: int| 0 <= m < reports@.len() && reports@[m] == k as usize;
                assert(!removed@.contains(reports@[m]));
            }
        }
        assert forall|jj: int| 0 <= jj < removed@.len() implies reports@.contains(#[trigger] removed@[jj]) by {
            if jj < before.len() {
                assert(removed@[jj] == before[jj]);
            }
        }
    }
    assert forall|i: int| 0 <= i < removed@.len() implies (#[trigger] removed@[i]) < files@.len()
        && is_report(files@[removed@[i] as int].name@) by {
        assert(reports@.contains(removed@[i]));
    }
    removed
}

/// A list without duplicates whose every element occurs in another list is no longer
/// than it.
proof fn lemma_covered_len(cover: Seq<usize>, items: Seq<usize>)
    requires
        cover.no_duplicates(),
        items.no_duplicates(),
        forall|m: int| 0 <= m < cover.len() ==> items.contains(#[trigger] cover[m]),
    ensures
        cover.len() <= items.len(),
{
    cover.unique_seq_to_set();
    items.unique_seq_to_set();
    assert(cover.to_set().subset_of(items.to_set()));
    vstd::set_lib::lemma_len_subset(cover.to_set(), items.to_set());
}

/// What polling the shutdown channel found.
#[derive(Debug, Clone, Copy, PartialEq, Eq, Structural)]
pub enum ShutdownPoll {
    /// A shutdown signal.
    Signal,
    /// The channel is closed.
    Closed,
    /// Nothing yet.
    Empty,
    /// Signals were missed.
    Lagged,
}

/// What the profiler does next.
#[derive(Debug, Clone, Copy, PartialEq, Eq, Structural)]
pub enum ProfilerStep {
    /// Stop profiling.
    Stop,
    /// Go on: sleep a second, then see whether a report is due.
    Continue,
}

/// The profiler stops on a shutdown signal or a closed channel, and goes on otherwise.
pub fn on_shutdown_poll(poll: ShutdownPoll) -> (step: ProfilerStep)
    ensures
        step == if poll == ShutdownPoll::Signal || poll == ShutdownPoll::Closed {
            ProfilerStep::Stop
        } else {
            ProfilerStep::Continue
        },
{
    match poll {
        ShutdownPoll::Signal => ProfilerStep::Stop,
        ShutdownPoll::Closed => ProfilerStep::Stop,
        ShutdownPoll::Empty => ProfilerStep::Continue,
        ShutdownPoll::Lagged => ProfilerStep::Continue,
    }
}

/// Whole seconds from `since` to `now`, nanoseconds on a monotonic clock; none if `now` is
/// not later.
pub open spec fn elapsed_secs(since: u64, now: u64) -> int {
    if now >= since {
        (now - since) / 1_000_000_000
    } else {
        0
    }
}

/// When the profiler writes its next report: once a report interval, in whole seconds,
/// has passed since the last one.
pub struct ReportSchedule {
    last: u64,
    interval_secs: u64,
}

impl ReportSchedule {
    pub closed spec fn spec_last(&self) -> u64 {
        self.last
    }

    pub closed spec fn spec_interval_secs(&self) -> u64 {
        self.interval_secs
    }

    /// A schedule that counts from `now`.
    pub fn new(now: u64, interval_secs: u64) -> (s: ReportSchedule)
        ensures
            s.spec_last() == now,
            s.spec_interval_secs() == interval_secs,
    {
        ReportSchedule { last: now, interval_secs }
    }

    /// Whether a report is due at `now`; a due report counts as written at `now`.
    pub fn report_due(&mut self, now: u64) -> (due: bool)
        ensures
            due == (elapsed_secs(old(self).spec_last(), now) >= old(self).spec_interval_secs()),
            final(self).spec_interval_secs() == old(self).spec_interval_secs(),
            final(self).spec_last() == if due { now } else { old(self).spec_last() },
    {
        let elapsed = if now >= self.last { (now - self.last) / 1_000_000_000 } else { 0 };
        if elapsed < self.interval_secs {
            false
        } else {
            self.last = now;
            true
        }
    }
}

/// What the profiler does after trying to write a report: it stops if the report could
/// not be built or its file not created; a failure to write the graph into the file is
/// only logged.
pub fn after_report(built: bool, file_created: bool) -> (step: ProfilerStep)
    ensures
        step == if built && file_created { ProfilerStep::Continue } else { ProfilerStep::Stop },
{
    if built && file_created {
        ProfilerStep::Continue
    } else {
        ProfilerStep::Stop
    }
}

/// The name of a report written at the time that `time` spells.
pub fn report_file_name(time: &str) -> (name: String)
    ensures
        name@ == time@ + ".svg"@,
{
    let mut name = String::from_str(time);
    name.append(".svg");
    name
}

} // verus!
