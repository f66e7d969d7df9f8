use elastic_stream::store::aligned::AlignedBufReader;
use elastic_stream::store::barrier::WriteBarrier;
use elastic_stream::store::error::StoreError;
use elastic_stream::store::inflight::InflightWrites;
use elastic_stream::store::fetch::{
    assemble_fetch, complete_fetch, plan_fetch, plan_reads, FetchError, ReadTask,
};
use elastic_stream::store::io::{
    completions_to_await, on_complete, read_slice, receive_step, route_read, route_write,
    should_quit, validate_options, validate_write, write_reservations, CacheLookup, Completion,
    Opcode, Options, ReadRoute, Receive, WriteRoute,
};
use elastic_stream::store::record_handle::{HandleExt, RecordHandle};
use elastic_stream::store::request::AppendRecordRequest;
use elastic_stream::store::segment::{LogSegment, Status, TimeRange};

#[test]
fn test_format_number() {
    assert_eq!(
        LogSegment::format(0).len(),
        LogSegment::format(std::u64::MAX).len()
    );
}

#[test]
fn format_pads_with_zeros() {
    assert_eq!("00000000000000000042", LogSegment::format(42));
    assert_eq!("18446744073709551615", LogSegment::format(u64::MAX));
}

#[test]
fn record_handle_decodes_both_kinds() {
    let mut raw = Vec::new();
    raw.extend_from_slice(&4096u64.to_be_bytes());
    raw.extend_from_slice(&((100u32 << 8) | 0).to_be_bytes());
    raw.extend_from_slice(&0xabcdu64.to_be_bytes());
    let h = RecordHandle::from_slice(&raw);
    assert_eq!(4096, h.wal_offset);
    assert_eq!(100, h.len);
    assert_eq!(HandleExt::Hash(0xabcd), h.ext);

    let mut raw = Vec::new();
    raw.extend_from_slice(&8u64.to_be_bytes());
    raw.extend_from_slice(&((7u32 << 8) | 1).to_be_bytes());
    raw.extend_from_slice(&12u16.to_be_bytes());
    let h = RecordHandle::from_slice(&raw);
    assert_eq!(8, h.wal_offset);
    assert_eq!(7, h.len);
    assert_eq!(HandleExt::BatchSize(12), h.ext);
}

#[test]
fn read_buffers_are_aligned() {
    let b = AlignedBufReader::alloc_read_buf(4097, 10, 4096);
    assert_eq!(4096, b.wal_offset);
    assert_eq!(4096, b.capacity);
    let b = AlignedBufReader::alloc_read_buf(4090, 10, 4096);
    assert_eq!(0, b.wal_offset);
    assert_eq!(8192, b.capacity);
    let b = AlignedBufReader::alloc_read_buf(8192, 0, 4096);
    assert_eq!(8192, b.wal_offset);
    assert_eq!(0, b.capacity);
}

#[test]
fn segment_capacity() {
    let mut s = LogSegment::new(0, 1024, "/tmp/wal/00000000000000000000".to_owned());
    assert_eq!(Status::OpenAt, s.status);
    assert_eq!(0, s.remaining());
    s.status = Status::ReadWrite;
    assert_eq!(1024, s.remaining());
    assert!(s.can_hold(1024 - 32));
    assert!(!s.can_hold(1024 - 31));
    s.written = 1024;
    assert!(s.is_full());
    s.status = Status::Read;
    assert!(!s.can_hold(0));
    assert_eq!(TimeRange { begin: 5, end: None }, TimeRange::new(5));
}

#[test]
fn fetch_plans_one_read_per_handle() {
    let handles = vec![
        RecordHandle { wal_offset: 100, len: 10, ext: HandleExt::BatchSize(1) },
        RecordHandle { wal_offset: 50, len: 20, ext: HandleExt::Hash(7) },
    ];
    let tasks = plan_reads(3, &handles);
    assert_eq!(
        vec![
            ReadTask { stream_id: 3, wal_offset: 100, len: 10 },
            ReadTask { stream_id: 3, wal_offset: 50, len: 20 },
        ],
        tasks
    );
    assert!(plan_reads(3, &Vec::new()).is_empty());
}

#[test]
fn fetch_orders_payloads_by_wal_offset() {
    let results: Vec<Result<(i64, &str), FetchError>> = vec![Ok((30, "c")), Ok((10, "a")), Ok((20, "b"))];
    assert_eq!(Ok(vec!["a", "b", "c"]), assemble_fetch(results));
    let empty: Vec<Result<(i64, u8), FetchError>> = Vec::new();
    assert_eq!(Ok(Vec::new()), assemble_fetch(empty));
}

#[test]
fn fetch_fails_with_the_first_error() {
    let results: Vec<Result<(i64, u8), FetchError>> = vec![
        Ok((1, 1)),
        Err(FetchError::ChannelRecv),
        Err(FetchError::NoRecord),
    ];
    assert_eq!(Err(FetchError::ChannelRecv), assemble_fetch(results));
}

#[test]
fn io_options_need_both_paths() {
    assert_eq!(
        Err(StoreError::Configuration("WAL path required".to_owned())),
        validate_options(0, "/data/meta")
    );
    assert_eq!(
        Err(StoreError::Configuration("Metadata path required".to_owned())),
        validate_options(1, "")
    );
    assert_eq!(Ok(()), validate_options(2, "/data/meta"));
    assert!(validate_write(1));
    assert!(!validate_write(0));
}

#[test]
fn io_receive_steps() {
    assert_eq!(Receive::Stop, receive_step(30, 2, 5, 32));
    assert_eq!(Receive::Block, receive_step(0, 0, 0, 32));
    assert_eq!(Receive::Poll, receive_step(0, 0, 1, 32));
    assert_eq!(Receive::Poll, receive_step(3, 1, 0, 32));
}

#[test]
fn io_completions() {
    assert_eq!(Ok(Completion::Nothing), on_complete(Opcode::Other, -5, None));
    assert_eq!(Err(StoreError::System(5)), on_complete(Opcode::Write, -5, None));
    assert_eq!(Ok(Completion::CommitWrite), on_complete(Opcode::Write, 4096, None));
    assert_eq!(Err(StoreError::System(11)), on_complete(Opcode::Read, -11, Some((0, 8))));
    assert_eq!(Ok(Completion::Read(8)), on_complete(Opcode::Read, 8, Some((0, 8))));
    assert_eq!(Err(StoreError::InsufficientData), on_complete(Opcode::Read, 4, Some((0, 8))));
    assert_eq!(
        Err(StoreError::Internal("Invalid read request".to_owned())),
        on_complete(Opcode::Read, 8, None)
    );
}

#[test]
fn io_read_slices() {
    // The buffer covers [4096, 8192); the task wants [5000, 5100).
    assert_eq!((904, 1004), read_slice(4096, 4096, 5000, 100));
    // The task starts before the buffer and ends past it.
    assert_eq!((0, 4096), read_slice(4096, 4096, 4000, 5000));
}

#[test]
fn io_routes_tasks() {
    assert_eq!(ReadRoute::Requeue, route_read(false, CacheLookup::Hit));
    assert_eq!(ReadRoute::Complete, route_read(true, CacheLookup::Hit));
    assert_eq!(ReadRoute::Await, route_read(true, CacheLookup::Loading));
    assert_eq!(ReadRoute::Load, route_read(true, CacheLookup::Miss));
    assert_eq!(WriteRoute::Yield, route_write(false, false, false, false));
    assert_eq!(WriteRoute::Yield, route_write(true, false, true, true));
    assert_eq!(WriteRoute::SealSegment, route_write(true, true, true, false));
    assert_eq!(WriteRoute::Append, route_write(true, true, true, true));
}

#[test]
fn io_reserves_write_buffers() {
    assert_eq!(vec![96, 4096, 512], write_reservations(&vec![4096, 4096, 512], 4000));
    assert_eq!(vec![0, 10], write_reservations(&vec![100, 10], 4000));
    assert!(write_reservations(&Vec::new(), 7).is_empty());
}

#[test]
fn io_waits_for_at_most_the_inflight_completions() {
    assert_eq!(None, completions_to_await(0, 4));
    assert_eq!(Some(3), completions_to_await(3, 4));
    assert_eq!(Some(2), completions_to_await(3, 2));
}

#[test]
fn io_quits_only_when_idle_and_disconnected() {
    assert!(should_quit(0, 0, 0, 0, 0, true));
    assert!(!should_quit(0, 0, 0, 0, 0, false));
    assert!(!should_quit(1, 0, 0, 0, 0, true));
    assert!(!should_quit(0, 0, 0, 1, 0, true));
}

#[test]
fn io_options_defaults() {
    let o = Options::default();
    assert_eq!(4096, o.io_depth);
    assert_eq!(2000, o.sqpoll_idle_ms);
    assert_eq!(1, o.sqpoll_cpu);
    assert_eq!([2, 2], o.max_workers);
}

#[test]
fn segment_statuses_describe_themselves() {
    assert_eq!("open", Status::OpenAt.describe());
    assert_eq!("fallocate", Status::Fallocate64.describe());
    assert_eq!("read/write", Status::ReadWrite.describe());
    assert_eq!("read", Status::Read.describe());
    assert_eq!("close", Status::Close.describe());
    assert_eq!("unlink", Status::UnlinkAt.describe());
}

#[test]
fn fetch_keeps_reads_at_one_offset_in_order() {
    let results: Vec<Result<(i64, &str), FetchError>> =
        vec![Ok((10, "x")), Ok((5, "a")), Ok((10, "y")), Ok((10, "z"))];
    assert_eq!(Ok(vec!["a", "x", "y", "z"]), assemble_fetch(results));
}

#[test]
fn append_requests_expose_offset_and_len() {
    let r = AppendRecordRequest { stream_id: 1, range: 0, offset: 42, len: 3, buffer: vec![1, 2, 3] };
    assert_eq!(42, r.offset());
    assert_eq!(3, r.len());
    let r = AppendRecordRequest { stream_id: 1, range: 0, offset: -1, len: 0, buffer: Vec::new() };
    assert_eq!(u64::MAX, r.offset());
}

#[test]
fn fetch_maps_the_index_scan() {
    let failed: Result<Option<Vec<RecordHandle>>, &str> = Err("index closed");
    assert_eq!(Err(FetchError::TranslateIndex), plan_fetch(3, failed));
    let empty: Result<Option<Vec<RecordHandle>>, &str> = Ok(None);
    assert_eq!(Err(FetchError::NoRecord), plan_fetch(3, empty));
    let found: Result<Option<Vec<RecordHandle>>, &str> =
        Ok(Some(vec![RecordHandle { wal_offset: 64, len: 8, ext: HandleExt::BatchSize(2) }]));
    assert_eq!(Ok(vec![ReadTask { stream_id: 3, wal_offset: 64, len: 8 }]), plan_fetch(3, found));
}

#[test]
fn fetch_results_carry_stream_and_offset() {
    let results: Vec<Result<(i64, u8), FetchError>> = vec![Ok((20, 2)), Ok((10, 1))];
    let f = complete_fetch(5, 100, results).ok().unwrap();
    assert_eq!((5, 100, vec![1, 2]), (f.stream_id, f.offset, f.payload));
    let results: Vec<Result<(i64, u8), FetchError>> = vec![Ok((20, 2)), Err(FetchError::SubmissionQueue)];
    assert!(matches!(complete_fetch(5, 100, results), Err(FetchError::SubmissionQueue)));
}

#[test]
fn segment_file_names_spell_offsets() {
    assert_eq!(Some(0), LogSegment::parse_offset(b"00000000000000000000"));
    assert_eq!(Some(42), LogSegment::parse_offset(LogSegment::format(42).as_bytes()));
    assert_eq!(Some(u64::MAX), LogSegment::parse_offset(b"18446744073709551615"));
    assert_eq!(None, LogSegment::parse_offset(b"18446744073709551616"));
    assert_eq!(Some(7), LogSegment::parse_offset(b"+7"));
    assert_eq!(None, LogSegment::parse_offset(b"+"));
    assert_eq!(None, LogSegment::parse_offset(b""));
    assert_eq!(None, LogSegment::parse_offset(b"-1"));
    assert_eq!(None, LogSegment::parse_offset(b"12.svg"));
}

#[test]
fn committed_writes_complete_in_position_order() {
    let mut w: InflightWrites<&str> = InflightWrites::new();
    w.insert(300, Some(100), "c");
    w.insert(100, Some(100), "a");
    w.insert(200, None, "b");
    w.insert(400, Some(50), "d");
    assert_eq!(vec![(0, 100, "a"), (200, 100, "c")], w.complete(300));
    assert!(w.complete(399).is_empty());
    w.insert(400, Some(60), "e");
    assert_eq!(vec![(340, 60, "e")], w.complete(u64::MAX));
}

#[test]
fn formatted_segment_names_read_back() {
    for offset in [0u64, 7, 4096, 1 << 40, u64::MAX] {
        assert_eq!(Some(offset), LogSegment::parse_offset(LogSegment::format(offset).as_bytes()));
    }
}

#[test]
fn partly_filled_pages_hold_back_further_writes() {
    let mut b: WriteBarrier<&str> = WriteBarrier::new();
    assert_eq!(Some("w1"), b.route(4096, true, "w1"));
    assert_eq!(None, b.route(4096, true, "w2"));
    assert_eq!(None, b.route(4096, false, "w3"));
    assert_eq!(Some("w4"), b.route(8192, false, "w4"));
    assert_eq!(Some("w5"), b.route(8192, false, "w5"));
    assert!(b.release().is_empty());
    b.on_completed(4096);
    assert_eq!(vec!["w3"], b.release());
    assert!(b.release().is_empty());
}
