use vstd::prelude::*;

use crate::client::session::{RequestKind, Response, Status};

verus! {

/// What dispatching a request does before it tries any session.
#[derive(Debug, Clone, Copy, PartialEq, Eq, Structural)]
pub enum DispatchStart {
    /// Sessions exist: go on to try them.
    Proceed,
    /// No session exists: connect to the first endpoint, then try the sessions.
    Connect,
    /// No session exists and no endpoint is known: answer the request with
    /// `Response::ListRange { status: Status::Unavailable }` and stop.
    Unavailable,
}

/// The reply a request gets when no endpoint can be reached.
pub open spec fn unavailable_reply() -> Response {
    Response::ListRange { status: Status::Unavailable }
}

/// Decides how dispatching starts, from the number of sessions and whether the
/// load-balancing policy picked an endpoint.
pub fn dispatch_start(session_count: usize, endpoint_available: bool) -> (d: DispatchStart)
    ensures
        session_count > 0 ==> d == DispatchStart::Proceed,
        session_count == 0 && endpoint_available ==> d == DispatchStart::Connect,
        session_count == 0 && !endpoint_available ==> d == DispatchStart::Unavailable,
{
    if session_count > 0 {
        DispatchStart::Proceed
    } else if endpoint_available {
        DispatchStart::Connect
    } else {
        DispatchStart::Unavailable
    }
}

/// One step of the walk over the sessions.
#[derive(Debug, Clone, Copy, PartialEq, Eq, Structural)]
pub enum AttemptStep {
    /// Write the request to the next session.
    Write,
    /// Stop trying; deliver `reply` to the submitter if there is one.
    GiveUp { reply: Option<Response> },
}

/// The reply a request gets once its attempts are used up: a list-range request is told
/// the service is unavailable, a heartbeat gets nothing.
pub open spec fn exhausted_reply(request: RequestKind) -> Option<Response> {
    match request {
        RequestKind::Heartbeat => None,
        RequestKind::ListRange => Some(unavailable_reply()),
    }
}

/// Counts the sessions a request was written to, so that no request is tried on more
/// sessions than the configured number of attempts.
pub struct Attempts {
    made: u32,
    max: u32,
}

impl Attempts {
    pub closed spec fn spec_made(&self) -> u32 {
        self.made
    }

    pub closed spec fn spec_max(&self) -> u32 {
        self.max
    }

    /// No attempt beyond the limit is ever made.
    pub open spec fn wf(&self) -> bool {
        self.spec_made() <= self.spec_max()
    }

    pub fn new(max_attempt: u32) -> (a: Attempts)
        ensures
            a.wf(),
            a.spec_made() == 0,
            a.spec_max() == max_attempt,
    {
        Attempts { made: 0, max: max_attempt }
    }

    /// Decides whether the request goes to the next session or dispatching stops.
    pub fn next(&mut self, request: RequestKind) -> (step: AttemptStep)
        requires
            old(self).wf(),
        ensures
            final(self).wf(),
            final(self).spec_max() == old(self).spec_max(),
            old(self).spec_made() < old(self).spec_max() ==> step == AttemptStep::Write
                && final(self).spec_made() == old(self).spec_made() + 1,
            old(self).spec_made() == old(self).spec_max() ==> step == (AttemptStep::GiveUp {
                reply: exhausted_reply(request),
            }) && final(self).spec_made() == old(self).spec_made(),
    {
        if self.made < self.max {
            self.made = self.made + 1;
            AttemptStep::Write
        } else {
            let reply = match request {
                RequestKind::Heartbeat => None,
                RequestKind::ListRange => Some(Response::ListRange { status: Status::Unavailable }),
            };
            AttemptStep::GiveUp { reply }
        }
    }
}

} // verus!
