use elastic_stream::client::session::{RequestKind, Response, Session, SessionState, Status};
use elastic_stream::client::session_manager::{
    dispatch_start, AttemptStep, Attempts, DispatchStart,
};
use elastic_stream::codec::frame::OperationCode;

const SECOND: u64 = 1_000_000_000;

#[test]
fn new_session_is_active_and_not_due_for_heartbeat() {
    let session: Session<u8> = Session::new(10 * SECOND);
    assert_eq!(SessionState::Active, session.state());
    assert!(!session.need_heartbeat(10 * SECOND, SECOND));
    assert!(session.need_heartbeat(11 * SECOND, SECOND));
    // A clock reading before the last write counts as no time passed.
    assert!(!session.need_heartbeat(5 * SECOND, SECOND));
    assert!(session.need_heartbeat(5 * SECOND, 0));
}

#[test]
fn closing_session_sends_no_heartbeat() {
    let mut session: Session<u8> = Session::new(0);
    assert!(session.may_heartbeat());
    session.close();
    assert_eq!(SessionState::Closing, session.state());
    assert!(!session.may_heartbeat());
    assert!(!session.need_heartbeat(100 * SECOND, SECOND));
}

#[test]
fn writes_refresh_idleness() {
    let mut session: Session<u8> = Session::new(0);
    session.touch(5 * SECOND);
    assert!(!session.need_heartbeat(5 * SECOND + 1, SECOND));
    assert!(session.need_heartbeat(6 * SECOND, SECOND));
}

#[test]
fn responses_go_to_the_waiting_request() {
    let mut session: Session<&str> = Session::new(0);
    assert_eq!(Ok(()), session.complete_write(RequestKind::ListRange, 1, "list", true));
    assert_eq!(Ok(()), session.complete_write(RequestKind::Heartbeat, 2, "beat", true));

    assert_eq!(
        Some(("beat", Response::Heartbeat { status: Status::OK })),
        session.on_response(2, OperationCode::Heartbeat)
    );
    // The request left the books: a second response finds nobody waiting.
    assert_eq!(None, session.on_response(2, OperationCode::Heartbeat));
    assert_eq!(
        Some(("list", Response::ListRange { status: Status::OK })),
        session.on_response(1, OperationCode::ListRanges)
    );
}

#[test]
fn unsupported_responses_drop_the_request() {
    let mut session: Session<&str> = Session::new(0);
    assert_eq!(Ok(()), session.complete_write(RequestKind::ListRange, 9, "list", true));
    assert_eq!(None, session.on_response(9, OperationCode::Append));
    assert_eq!(None, session.on_response(9, OperationCode::ListRanges));
}

#[test]
fn failed_writes_hand_back_list_range_observers() {
    let mut session: Session<&str> = Session::new(0);
    assert_eq!(Err("list"), session.complete_write(RequestKind::ListRange, 1, "list", false));
    assert_eq!(Ok(()), session.complete_write(RequestKind::Heartbeat, 2, "beat", false));
    assert!(session.abort_all().is_empty());
}

#[test]
fn dropping_a_session_aborts_what_is_in_flight() {
    let mut session: Session<u32> = Session::new(0);
    for id in 1..=3u32 {
        assert_eq!(Ok(()), session.complete_write(RequestKind::ListRange, id, id * 10, true));
    }
    let mut aborted = session.abort_all();
    aborted.sort_by_key(|(observer, _)| *observer);
    let aborted_reply = Response::ListRange { status: Status::Aborted };
    assert_eq!(vec![(10, aborted_reply), (20, aborted_reply), (30, aborted_reply)], aborted);
    assert!(session.abort_all().is_empty());
    assert_eq!(None, session.on_response(1, OperationCode::ListRanges));
}

#[test]
fn dispatch_starts_by_connecting_when_needed() {
    assert_eq!(DispatchStart::Proceed, dispatch_start(2, false));
    assert_eq!(DispatchStart::Connect, dispatch_start(0, true));
    assert_eq!(DispatchStart::Unavailable, dispatch_start(0, false));
}

#[test]
fn dispatch_tries_at_most_max_attempt_sessions() {
    let mut attempts = Attempts::new(2);
    assert_eq!(AttemptStep::Write, attempts.next(RequestKind::ListRange));
    assert_eq!(AttemptStep::Write, attempts.next(RequestKind::ListRange));
    assert_eq!(
        AttemptStep::GiveUp { reply: Some(Response::ListRange { status: Status::Unavailable }) },
        attempts.next(RequestKind::ListRange)
    );

    let mut attempts = Attempts::new(0);
    assert_eq!(AttemptStep::GiveUp { reply: None }, attempts.next(RequestKind::Heartbeat));
}

#[test]
fn session_test_new() {
    let session: Session<u8> = Session::new(0);
    assert_eq!(SessionState::Active, session.state());
    assert_eq!(false, session.need_heartbeat(0, SECOND));
}

/// A heartbeat written on an active session is answered when its response frame arrives.
#[test]
fn test_heartbeat() {
    let mut session: Session<&str> = Session::new(0);
    assert!(session.may_heartbeat());
    session.touch(SECOND);
    assert_eq!(Ok(()), session.complete_write(RequestKind::Heartbeat, 1, "observer", true));
    let response = session.on_response(1, OperationCode::Heartbeat);
    assert_eq!(true, response.is_some());
    assert_eq!(Some(("observer", Response::Heartbeat { status: Status::OK })), response);
}

/// A list-range request written on an active session is answered when its response frame
/// arrives.
#[test]
fn test_list_ranges() {
    let mut session: Session<&str> = Session::new(0);
    assert_eq!(Ok(()), session.complete_write(RequestKind::ListRange, 7, "observer", true));
    let response = session.on_response(7, OperationCode::ListRanges);
    assert_eq!(true, response.is_some());
    assert_eq!(Some(("observer", Response::ListRange { status: Status::OK })), response);
}
