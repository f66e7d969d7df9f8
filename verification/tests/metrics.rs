use elastic_stream::metrics::{retained_metrics, MetricKind, MetricSample};

fn sample(counter_positive: bool, histogram_samples: u64) -> MetricSample {
    MetricSample { counter_positive, histogram_samples }
}

#[test]
fn counters_keep_only_moved_values() {
    let metrics = vec![sample(false, 9), sample(true, 0), sample(false, 0), sample(true, 3)];
    assert_eq!(vec![1, 3], retained_metrics(MetricKind::Counter, &metrics));
}

#[test]
fn histograms_keep_only_observed_values() {
    let metrics = vec![sample(true, 0), sample(false, 2), sample(true, 1)];
    assert_eq!(vec![1, 2], retained_metrics(MetricKind::Histogram, &metrics));
}

#[test]
fn other_kinds_keep_everything() {
    let metrics = vec![sample(false, 0), sample(false, 0)];
    assert_eq!(vec![0, 1], retained_metrics(MetricKind::Other, &metrics));
    assert!(retained_metrics(MetricKind::Counter, &Vec::new()).is_empty());
}
