use elastic_stream::model::range_metadata::RangeMetadata;
use elastic_stream::node::idle::IdleHandler;
use elastic_stream::node::launch::{assign_cores, local_data_node};
use elastic_stream::node::profiling::{
    after_report, expired_reports, on_shutdown_poll, report_file_name, ProfilerStep, ReportFile,
    ReportSchedule, ShutdownPoll,
};
use elastic_stream::node::worker::{listen_address, DrainStep, ShutdownDrain};
use elastic_stream::node::range::Range;
use elastic_stream::node::window::{Admission, ServiceError, Window};

#[test]
fn range_test_new() {
    let metadata = RangeMetadata::new(0, 0, 0, 0, None);
    let range = Range::new(metadata);
    assert_eq!(range.committed(), None);
    assert!(!range.data_complete());
}

#[test]
fn test_commit() {
    let metadata = RangeMetadata::new(0, 0, 0, 0, None);
    let mut range = Range::new(metadata);
    range.commit(1);
    assert_eq!(range.committed(), Some(1));

    range.commit(0);
    assert_eq!(range.committed(), Some(1));

    range.commit(2);
    assert_eq!(range.committed(), Some(2));
}

#[test]
fn test_seal() {
    let metadata = RangeMetadata::new(0, 0, 0, 0, None);
    let mut range = Range::new(metadata.clone());
    range.commit(1);

    let mut metadata = RangeMetadata::new(0, 0, 0, 0, Some(1));
    range.seal(&mut metadata);

    assert_eq!(range.committed(), Some(1));
    assert!(range.data_complete(), "Data should be complete");

    let mut metadata = RangeMetadata::new(0, 0, 0, 0, Some(2));
    range.seal(&mut metadata);

    assert_eq!(range.committed(), Some(1));
    assert_eq!(false, range.data_complete(), "Data should not be complete");
}

#[test]
fn first_commit_below_start_is_ignored() {
    let mut range = Range::new(RangeMetadata::new(0, 0, 0, 10, None));
    range.commit(5);
    assert_eq!(None, range.committed());
    range.commit(10);
    assert_eq!(Some(10), range.committed());
}

#[test]
fn seal_without_end_uses_committed_offset() {
    let mut range = Range::new(RangeMetadata::new(0, 0, 0, 10, None));
    range.commit(15);
    let mut target = RangeMetadata::new(0, 0, 0, 10, None);
    range.seal(&mut target);
    assert_eq!(Some(15), target.end());
    assert_eq!(Some(15), range.metadata.end());
    assert!(range.data_complete());

    let mut fresh = Range::new(RangeMetadata::new(0, 0, 0, 10, None));
    let mut target = RangeMetadata::new(0, 0, 0, 10, None);
    fresh.seal(&mut target);
    assert_eq!(Some(10), target.end());
    assert!(!fresh.data_complete());
}

#[test]
fn window_dispatches_in_order() {
    let mut w = Window::new(10);
    assert_eq!(Err(ServiceError::OffsetCommitted), w.submit(5, 2));
    assert_eq!(Ok(Admission::Go), w.submit(10, 2));
    assert_eq!(12, w.next());
    assert_eq!(Err(ServiceError::OffsetInWindow), w.submit(10, 2));
    assert_eq!(Ok(Admission::Wait), w.submit(14, 2));
    assert_eq!(Ok(Admission::Go), w.submit(12, 2));
    assert_eq!(14, w.next());

    let (committed, woken) = w.commit(12);
    assert_eq!(14, committed);
    assert_eq!(vec![14], woken);
    assert_eq!(14, w.committed());
    assert_eq!(14, w.next());

    let (committed, woken) = w.commit(14);
    assert_eq!(16, committed);
    assert!(woken.is_empty());
    assert_eq!(16, w.next());
}

#[test]
fn window_commit_without_submissions() {
    let mut w = Window::new(0);
    let (committed, woken) = w.commit(100);
    assert_eq!(100, committed);
    assert!(woken.is_empty());
    assert_eq!(100, w.next());
    w.reset_next(200);
    assert_eq!(200, w.next());
    let (committed, _) = w.commit(150);
    assert_eq!(150, committed);
    assert_eq!(200, w.next());
}

#[test]
fn idle_handler_closes_when_both_sides_idle() {
    let mut h = IdleHandler::new(100, 1000);
    assert!(!h.should_close(1100));
    assert!(h.should_close(1101));
    h.on_read(1050);
    assert!(!h.read_idle(1101));
    assert!(h.write_idle(1101));
    assert!(!h.should_close(1101));
    assert_eq!(51, h.read_elapsed(1101));
    assert_eq!(101, h.write_elapsed(1101));
    assert_eq!(0, h.read_elapsed(10));
    h.on_write(1100);
    assert!(!h.write_idle(1200));
}

#[test]
fn cores_go_to_the_last_workers() {
    let cores = vec![0, 1, 2, 3, 4, 5];
    let layout = assign_cores(&cores, 3);
    assert_eq!(3, layout.primary);
    assert_eq!(vec![4, 5], layout.secondaries);

    let layout = assign_cores(&cores, 1);
    assert_eq!(5, layout.primary);
    assert!(layout.secondaries.is_empty());

    let layout = assign_cores(&vec![7, 9], 2);
    assert_eq!(7, layout.primary);
    assert_eq!(vec![9], layout.secondaries);
}

#[test]
fn primary_worker_advertises_host_and_port() {
    let node = local_data_node(42, "10.0.0.1", 10911);
    assert_eq!(42, node.node_id);
    assert_eq!("10.0.0.1:10911", node.advertise_address);
    assert_eq!("localhost:0", local_data_node(0, "localhost", 0).advertise_address);
}

#[test]
fn workers_listen_on_every_interface() {
    assert_eq!("0.0.0.0:10911", listen_address(10911));
}

#[test]
fn shutdown_waits_for_connections_within_the_grace_period() {
    let drain = ShutdownDrain::new(1_000, 5_000);
    assert_eq!(DrainStep::Finished, drain.poll(0));
    assert_eq!(DrainStep::Sleep, drain.poll(3));
    assert!(!drain.after_sleep(2_000));
    assert!(!drain.after_sleep(5_999));
    assert!(drain.after_sleep(6_000));
    assert!(!drain.after_sleep(500));
}

fn report(name: &str, created: Option<u64>) -> ReportFile {
    ReportFile { name: name.as_bytes().to_vec(), created }
}

#[test]
fn oldest_reports_expire_first() {
    let files = vec![
        report("a.svg", Some(30)),
        report("b.txt", Some(1)),
        report("c.svg", Some(10)),
        report("d.svg", None),
        report("e.svg", Some(20)),
    ];
    let mut removed = expired_reports(&files, 2);
    removed.sort();
    assert_eq!(vec![2, 3], removed);
    assert!(expired_reports(&files, 4).is_empty());
    assert!(expired_reports(&files, 10).is_empty());
    let mut removed = expired_reports(&files, 0);
    removed.sort();
    assert_eq!(vec![0, 2, 3, 4], removed);
}

#[test]
fn profiler_stops_on_shutdown() {
    assert_eq!(ProfilerStep::Stop, on_shutdown_poll(ShutdownPoll::Signal));
    assert_eq!(ProfilerStep::Stop, on_shutdown_poll(ShutdownPoll::Closed));
    assert_eq!(ProfilerStep::Continue, on_shutdown_poll(ShutdownPoll::Empty));
    assert_eq!(ProfilerStep::Continue, on_shutdown_poll(ShutdownPoll::Lagged));
}

#[test]
fn reports_are_written_once_an_interval() {
    let second = 1_000_000_000u64;
    let mut s = ReportSchedule::new(0, 3);
    assert!(!s.report_due(2 * second));
    assert!(!s.report_due(3 * second - 1));
    assert!(s.report_due(3 * second));
    assert!(!s.report_due(5 * second));
    assert!(s.report_due(6 * second + 7));
    assert!(!s.report_due(0));
    assert_eq!(ProfilerStep::Continue, after_report(true, true));
    assert_eq!(ProfilerStep::Stop, after_report(false, true));
    assert_eq!(ProfilerStep::Stop, after_report(true, false));
    assert_eq!("2023-01-02-03-04-05.svg", report_file_name("2023-01-02-03-04-05"));
}
