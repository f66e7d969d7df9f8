use vstd::prelude::*;

verus! {

/// The kinds of metric families that simplification tells apart.
#[derive(Debug, Clone, Copy, PartialEq, Eq, Structural)]
pub enum MetricKind {
    Counter,
    Histogram,
    Other,
}

/// What simplification reads of one metric: whether its counter value is above zero, and
/// how many samples its histogram has seen.
#[derive(Debug, Clone, Copy, PartialEq, Eq, Structural)]
pub struct MetricSample {
    pub counter_positive: bool,
    pub histogram_samples: u64,
}

/// Whether a metric of a family of the given kind carries a sample value worth exporting:
/// a counter that moved, a histogram that observed something, or any other metric.
pub open spec fn has_samples(kind: MetricKind, m: MetricSample) -> bool {
    match kind {
        MetricKind::Counter => m.counter_positive,
        MetricKind::Histogram => m.histogram_samples > 0,
        MetricKind::Other => true,
    }
}

/// The positions, in order, of the first `n` metrics that carry samples.
pub open spec fn kept_positions(kind: MetricKind, metrics: Seq<MetricSample>, n: nat) -> Seq<usize>
    decreases n,
{
    if n == 0 {
        Seq::empty()
    } else {
        let rest = kept_positions(kind, metrics, (n - 1) as nat);
        if has_samples(kind, metrics[n - 1]) {
            rest.push((n - 1) as usize)
        } else {
            rest
        }
    }
}

/// Selects the metrics of a family that a simplified dump exports, by position.
///
/// A family whose selection comes out empty is left out of the dump altogether.
pub fn retained_metrics(kind: MetricKind, metrics: &Vec<MetricSample>) -> (kept: Vec<usize>)
    ensures
        kept@ == kept_positions(kind, metrics@, metrics@.len()),
{
    let mut kept: Vec<usize> = Vec::new();
    let mut i: usize = 0;
    while i < metrics.len()
        invariant
            i <= metrics.len(),
            kept@ == kept_positions(kind, metrics@, i as nat),
        decreases metrics.len() - i,
    {
        let m = metrics[i];
        let keep = match kind {
            MetricKind::Counter => m.counter_positive,
            MetricKind::Histogram => m.histogram_samples > 0,
            MetricKind::Other => true,
        };
        if keep {
            kept.push(i);
        }
        i = i + 1;
    }
    kept
}

} // verus!
