use elastic_stream::model::range_metadata::RangeMetadata;
use elastic_stream::replication::fetch::{
    begin_fetch, BlockInfo, FetchAction, FetchDataset, FetchMerge, FetchStart, Piece,
};
use elastic_stream::replication::order::{nth_largest, sort_descending};
use elastic_stream::replication::range::{
    calculate_confirm_offset, replicas_seal_end_offset, AckAction, RangeAppendContext,
    ReplicaState, ReplicationError, ReplicationRange, SealStep,
};

fn replica(confirm_offset: u64, corrupted: bool) -> ReplicaState {
    ReplicaState { confirm_offset, corrupted }
}

#[test]
fn confirm_offset_examples() {
    let healthy = vec![replica(1, false), replica(2, false), replica(3, false)];
    assert_eq!(Ok(3), calculate_confirm_offset(&healthy, 1));
    assert_eq!(Ok(2), calculate_confirm_offset(&healthy, 2));
    assert_eq!(Ok(1), calculate_confirm_offset(&healthy, 3));

    let one_corrupted = vec![replica(1, false), replica(2, true), replica(3, false)];
    assert_eq!(Ok(3), calculate_confirm_offset(&one_corrupted, 1));
    assert_eq!(Ok(1), calculate_confirm_offset(&one_corrupted, 2));
    assert_eq!(Err(ReplicationError::Internal), calculate_confirm_offset(&one_corrupted, 3));

    assert_eq!(Err(ReplicationError::Internal), calculate_confirm_offset(&vec![], 1));
}

#[test]
fn order_statistics() {
    assert_eq!(vec![9, 5, 5, 1], sort_descending(&vec![5, 1, 9, 5]));
    assert_eq!(Some(5), nth_largest(&vec![5, 1, 9, 5], 2));
    assert_eq!(None, nth_largest(&vec![5, 1], 2));
    assert_eq!(Ok(7), replicas_seal_end_offset(&vec![7, 8], 2));
    assert_eq!(Err(ReplicationError::Internal), replicas_seal_end_offset(&vec![7], 2));
}

#[test]
fn new_range_confirms_from_its_bounds() {
    let open = ReplicationRange::new(RangeMetadata::new(1, 0, 0, 10, None), true);
    assert_eq!(10, open.confirm_offset());
    assert!(!open.is_sealed());
    assert!(open.is_writable());

    let sealed = ReplicationRange::new(RangeMetadata::new(1, 0, 0, 10, Some(20)), true);
    assert_eq!(20, sealed.confirm_offset());
    assert!(sealed.is_sealed());
    assert!(!sealed.is_writable());
}

#[test]
fn try_ack_follows_the_replicas() {
    let meta = RangeMetadata::new(1, 0, 0, 0, None).with_ack_count(2);
    let mut range = ReplicationRange::new(meta, true);
    assert_eq!(AckAction::NotifyStream, range.try_ack(&vec![replica(5, false), replica(7, false)]));
    assert_eq!(5, range.confirm_offset());
    assert_eq!(AckAction::Nothing, range.try_ack(&vec![replica(5, false), replica(9, false)]));
    assert_eq!(AckAction::NotifyStream, range.try_ack(&vec![replica(5, true), replica(9, false)]));
    assert!(!range.is_writable());
    assert_eq!(5, range.confirm_offset());
    assert_eq!(AckAction::Nothing, range.try_ack(&vec![replica(8, false), replica(9, false)]));
}

#[test]
fn sealing_an_open_range() {
    let mut range = ReplicationRange::new(RangeMetadata::new(1, 0, 0, 40, None), true);
    assert_eq!(SealStep::SealPlacementManager(40), range.begin_seal());
    assert!(range.is_sealing());
    assert_eq!(SealStep::AwaitSealTask, range.begin_seal());
    assert_eq!(Err(ReplicationError::Internal), range.on_placement_manager_sealed(40, false));
    assert!(!range.is_sealing());
    assert_eq!(SealStep::SealPlacementManager(40), range.begin_seal());
    assert_eq!(Ok(40), range.on_placement_manager_sealed(40, true));
    assert!(range.is_sealed());
    assert!(!range.is_sealing());
    assert_eq!(Some(40), range.replicas_seal_after(40));
    assert_eq!(SealStep::Sealed(40), range.begin_seal());
}

#[test]
fn sealing_a_range_of_an_earlier_stream() {
    let meta = RangeMetadata::new(1, 0, 0, 40, None).with_ack_count(2);
    let mut range = ReplicationRange::new(meta, false);
    assert_eq!(SealStep::SealReplicas, range.begin_seal());
    assert_eq!(Err(ReplicationError::Internal), range.on_replicas_sealed(&vec![50]));
    assert!(!range.is_sealing());
    assert_eq!(SealStep::SealReplicas, range.begin_seal());
    assert_eq!(Ok(50), range.on_replicas_sealed(&vec![55, 50, 45]));
    assert_eq!(Ok(50), range.on_placement_manager_sealed(50, true));
    assert_eq!(50, range.confirm_offset());
    assert_eq!(None, range.replicas_seal_after(50));
    assert_eq!(SealStep::Sealed(50), range.begin_seal());
}

#[test]
fn append_context_keeps_its_values() {
    let c = RangeAppendContext::new(100, 3);
    assert_eq!(100, c.base_offset());
    assert_eq!(3, c.count());
}

fn block(start_offset: u64, end_offset: u64, len: u32) -> BlockInfo {
    BlockInfo { start_offset, end_offset, len }
}

#[test]
fn fetch_merge_takes_contiguous_records() {
    let mut m = FetchMerge::new(vec![block(10, 20, 100), block(20, 30, 100)], 10, 30, 1000);
    assert_eq!(FetchAction::Done, m.next());
    assert_eq!(&vec![Piece::Record(0), Piece::Record(1)], m.pieces());
}

#[test]
fn fetch_merge_stops_when_bytes_run_out() {
    let mut m = FetchMerge::new(vec![block(10, 20, 100), block(20, 30, 100)], 10, 30, 50);
    assert_eq!(FetchAction::Done, m.next());
    assert_eq!(&vec![Piece::Record(0)], m.pieces());
}

#[test]
fn fetch_merge_fills_gaps_from_object_storage() {
    let mut m = FetchMerge::new(vec![block(10, 20, 100), block(30, 40, 100)], 10, 50, 1000);
    assert_eq!(
        FetchAction::ReadObjects { start_offset: 20, end_offset: 30, max_bytes: 900 },
        m.next()
    );
    assert_eq!(
        Ok(FetchAction::ReadObjects { start_offset: 25, end_offset: 30, max_bytes: 850 }),
        m.on_objects::<()>(&Ok(vec![block(20, 25, 50)]))
    );
    assert_eq!(
        Ok(FetchAction::ReadObjects { start_offset: 25, end_offset: 30, max_bytes: 850 }),
        m.on_objects::<()>(&Ok(vec![block(25, 30, 50)]))
    );
    assert_eq!(Err(ReplicationError::Internal), m.on_objects::<()>(&Ok(Vec::new())));
    assert_eq!(&vec![Piece::Record(0), Piece::Objects, Piece::Objects], m.pieces());
}

#[test]
fn fetch_merge_is_done_once_objects_spend_the_bytes() {
    let mut m = FetchMerge::new(vec![block(30, 40, 100)], 10, 50, 100);
    assert_eq!(
        FetchAction::ReadObjects { start_offset: 10, end_offset: 30, max_bytes: 100 },
        m.next()
    );
    assert_eq!(Ok(FetchAction::Done), m.on_objects::<()>(&Ok(vec![block(10, 15, 60), block(15, 20, 60)])));
}

#[test]
fn fetch_merge_fails_on_a_failed_object_read() {
    let mut m = FetchMerge::new(vec![block(30, 40, 100)], 10, 50, 100);
    m.next();
    assert_eq!(Err(ReplicationError::Internal), m.on_objects(&Err("unreachable bucket")));
    assert!(m.pieces().is_empty());
}

#[test]
fn fetch_without_objects_answers_the_records() {
    let blocks = vec![block(30, 40, 100), block(40, 50, 100)];
    match begin_fetch::<u8>(Ok(FetchDataset::Records(blocks.clone())), 10, 50, 1) {
        Ok(FetchStart::Answer(a)) => assert_eq!(blocks, a),
        _ => panic!("expected the record blocks"),
    }
    match begin_fetch::<u8>(Ok(FetchDataset::Mixin(blocks.clone(), Vec::new())), 10, 50, 1) {
        Ok(FetchStart::Answer(a)) => assert_eq!(blocks, a),
        _ => panic!("expected the record blocks"),
    }
    assert!(matches!(begin_fetch::<u8>(Err(ReplicationError::Internal), 10, 50, 1), Err(ReplicationError::Internal)));
}

#[test]
fn fetch_with_objects_starts_a_merge() {
    let blocks = vec![block(30, 40, 100)];
    match begin_fetch(Ok(FetchDataset::Mixin(blocks, vec!["object-1"])), 10, 50, 100) {
        Ok(FetchStart::Merge(mut m, objects)) => {
            assert_eq!(vec!["object-1"], objects);
            assert_eq!(
                FetchAction::ReadObjects { start_offset: 10, end_offset: 30, max_bytes: 100 },
                m.next()
            );
        }
        _ => panic!("expected a merge"),
    }
}
