use elastic_stream::tiered::cache::{CacheBudget, Offload, RangeKey};

fn key(stream_id: u64, range_index: u32) -> RangeKey {
    RangeKey { stream_id, range_index }
}

#[test]
fn part_full_ranges_are_remembered_below_the_limit() {
    let mut b = CacheBudget::new(1000, 500);
    assert_eq!(Offload::Done, b.on_accumulated(key(1, 0), 600, true));
    assert_eq!(Offload::Done, b.on_accumulated(key(2, 0), 300, true));
    assert_eq!(Offload::Done, b.on_accumulated(key(1, 0), 50, true));
    assert_eq!(Offload::Done, b.on_accumulated(key(3, 1), 10, false));
    assert_eq!(960, b.cache_size());
    assert_eq!(&vec![key(1, 0), key(2, 0)], b.part_full());
}

#[test]
fn sweep_offloads_until_below_the_watermark() {
    let mut b = CacheBudget::new(1000, 500);
    b.on_accumulated(key(1, 0), 600, true);
    b.on_accumulated(key(2, 0), 300, true);
    b.on_accumulated(key(4, 0), 50, true);
    assert_eq!(Offload::PartFull(key(1, 0)), b.on_accumulated(key(3, 0), 100, false));
    assert_eq!(Offload::PartFull(key(2, 0)), b.on_part_full_offloaded(Some(-300)));
    assert_eq!(Offload::Done, b.on_part_full_offloaded(Some(-300)));
    assert_eq!(450, b.cache_size());
    assert_eq!(&vec![key(4, 0)], b.part_full());
}

#[test]
fn ranges_no_longer_held_stay_remembered() {
    let mut b = CacheBudget::new(100, 50);
    b.on_accumulated(key(1, 0), 60, true);
    assert_eq!(Offload::PartFull(key(1, 0)), b.on_accumulated(key(2, 0), 60, false));
    assert_eq!(Offload::Done, b.on_part_full_offloaded(None));
    assert_eq!(120, b.cache_size());
    assert_eq!(&vec![key(1, 0)], b.part_full());
}

#[test]
fn the_receiving_range_offloads_first_when_part_full() {
    let mut b = CacheBudget::new(100, 50);
    assert_eq!(Offload::Current, b.on_accumulated(key(1, 0), 150, true));
    assert_eq!(Offload::Done, b.on_current_offloaded(-20));
    assert_eq!(130, b.cache_size());
    assert!(b.part_full().is_empty());
}

#[test]
fn a_negative_held_size_reads_as_over_the_limit() {
    let mut b = CacheBudget::new(100, 50);
    assert_eq!(Offload::Current, b.on_accumulated(key(1, 0), -10, true));
    assert_eq!(Offload::Done, b.on_current_offloaded(0));
    assert_eq!(-10, b.cache_size());
}
