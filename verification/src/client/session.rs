use vstd::prelude::*;

use std::collections::HashMap;
use vstd::std_specs::iter::IteratorSpec;

use crate::codec::frame::OperationCode;

verus! {

broadcast use vstd::std_specs::hash::group_hash_axioms;

/// Outcome of a request to the placement manager.
#[derive(Debug, Clone, Copy, PartialEq, Eq, Structural)]
pub enum Status {
    OK,
    Unavailable,
    Aborted,
}

/// What a session hands back to whoever submitted a request.
#[derive(Debug, Clone, Copy, PartialEq, Eq, Structural)]
pub enum Response {
    Heartbeat { status: Status },
    ListRange { status: Status },
}

/// The requests a session forwards to the placement manager.
#[derive(Debug, Clone, Copy, PartialEq, Eq, Structural)]
pub enum RequestKind {
    Heartbeat,
    ListRange,
}

/// Lifecycle of a session.
#[derive(Debug, Clone, Copy, PartialEq, Eq, Structural)]
pub enum SessionState {
    Active,
    Closing,
}

/// The reply a session produces for a response frame of the given operation, if it
/// understands that operation.
pub open spec fn reply_for(op: OperationCode) -> Option<Response> {
    match op {
        OperationCode::Heartbeat => Some(Response::Heartbeat { status: Status::OK }),
        OperationCode::ListRanges => Some(Response::ListRange { status: Status::OK }),
        _ => None,
    }
}

/// The reply every in-flight request gets when its session goes away.
pub open spec fn aborted_reply() -> Response {
    Response::ListRange { status: Status::Aborted }
}

/// `out` answers each request of `inflight` exactly once, in the order of `keys`, with the
/// aborted reply.
pub open spec fn answered_in_order<O>(inflight: Map<u32, O>, keys: Seq<u32>, out: Seq<(O, Response)>) -> bool {
    &&& keys.no_duplicates()
    &&& keys.to_set() == inflight.dom()
    &&& out.len() == keys.len()
    &&& forall|i: int| 0 <= i < out.len() ==> #[trigger] out[i] == (inflight[keys[i]], aborted_reply())
}

/// The bookkeeping of one connection to the placement manager.
///
/// `O` is whatever the submitter waits on for its answer; the session keeps one per
/// request in flight, keyed by the stream-id of the frame that carried the request.
/// Instants are nanoseconds on a monotonic clock.
pub struct Session<O> {
    state: SessionState,
    idle_since: u64,
    inflight: HashMap<u32, O>,
}

impl<O> Session<O> {
    pub closed spec fn spec_state(&self) -> SessionState {
        self.state
    }

    pub closed spec fn spec_idle_since(&self) -> u64 {
        self.idle_since
    }

    /// The requests in flight, by stream-id.
    pub closed spec fn spec_inflight(&self) -> Map<u32, O> {
        self.inflight@
    }

    /// A session that has just connected.
    pub fn new(now: u64) -> (s: Session<O>)
        ensures
            s.spec_state() == SessionState::Active,
            s.spec_idle_since() == now,
            s.spec_inflight() == Map::<u32, O>::empty(),
    {
        Session { state: SessionState::Active, idle_since: now, inflight: HashMap::new() }
    }

    pub fn state(&self) -> (st: SessionState)
        ensures
            st == self.spec_state(),
    {
        self.state
    }

    /// Starts closing the session: it sends no more heartbeats.
    pub fn close(&mut self)
        ensures
            final(self).spec_state() == SessionState::Closing,
            final(self).spec_idle_since() == old(self).spec_idle_since(),
            final(self).spec_inflight() == old(self).spec_inflight(),
    {
        self.state = SessionState::Closing;
    }

    /// Whether the session, still active, has been idle for at least `interval`.
    pub fn need_heartbeat(&self, now: u64, interval: u64) -> (b: bool)
        ensures
            b == (self.spec_state() == SessionState::Active && (if now >= self.spec_idle_since() {
                now - self.spec_idle_since()
            } else {
                0
            }) >= interval),
    {
        let active = match self.state {
            SessionState::Active => true,
            SessionState::Closing => false,
        };
        active && now.saturating_sub(self.idle_since) >= interval
    }

    /// Whether a heartbeat may be written now: a closing session writes none.
    pub fn may_heartbeat(&self) -> (b: bool)
        ensures
            b == (self.spec_state() != SessionState::Closing),
    {
        match self.state {
            SessionState::Active => true,
            SessionState::Closing => false,
        }
    }

    /// Marks the session busy at `now`, as each write does before it goes out.
    pub fn touch(&mut self, now: u64)
        ensures
            final(self).spec_idle_since() == now,
            final(self).spec_state() == old(self).spec_state(),
            final(self).spec_inflight() == old(self).spec_inflight(),
    {
        self.idle_since = now;
    }

    /// Records the outcome of writing a request in a frame with the given stream-id.
    ///
    /// A written request waits for its response under that stream-id. When the write
    /// failed, a list-range request hands its observer back so that another session can be
    /// tried; a heartbeat is given up quietly.
    pub fn complete_write(&mut self, request: RequestKind, stream_id: u32, observer: O, written: bool)
        -> (r: Result<(), O>)
        ensures
            final(self).spec_state() == old(self).spec_state(),
            final(self).spec_idle_since() == old(self).spec_idle_since(),
            written ==> final(self).spec_inflight() == old(self).spec_inflight().insert(stream_id, observer)
                && r is Ok,
            !written ==> final(self).spec_inflight() == old(self).spec_inflight(),
            !written && request == RequestKind::ListRange ==> r == Err::<(), O>(observer),
            !written && request == RequestKind::Heartbeat ==> r is Ok,
    {
        if written {
            self.inflight.insert(stream_id, observer);
            Ok(())
        } else {
            match request {
                RequestKind::Heartbeat => Ok(()),
                RequestKind::ListRange => Err(observer),
            }
        }
    }

    /// Takes the request waiting on a response frame off the books and pairs its observer
    /// with the reply to deliver.
    ///
    /// The request leaves the books whatever the operation; no reply is produced for a
    /// stream-id nobody waits on, nor for an operation the session does not understand.
    pub fn on_response(&mut self, stream_id: u32, op: OperationCode) -> (r: Option<(O, Response)>)
        ensures
            final(self).spec_inflight() == old(self).spec_inflight().remove(stream_id),
            final(self).spec_state() == old(self).spec_state(),
            final(self).spec_idle_since() == old(self).spec_idle_since(),
            r is Some <==> old(self).spec_inflight().contains_key(stream_id) && reply_for(op) is Some,
            r matches Some((o, reply)) ==> o == old(self).spec_inflight()[stream_id]
                && Some(reply) == reply_for(op),
    {
        let removed = self.inflight.remove(&stream_id);
        match removed {
            Some(observer) => {
                let reply = match op {
                    OperationCode::Heartbeat => Response::Heartbeat { status: Status::OK },
                    OperationCode::ListRanges => Response::ListRange { status: Status::OK },
                    _ => {
                        return None;
                    },
                };
                Some((observer, reply))
            },
            None => None,
        }
    }

    /// Takes every request off the books, pairing each observer with the aborted reply, as
    /// happens when the session goes away.
    pub fn abort_all(&mut self) -> (out: Vec<(O, Response)>)
        ensures
            final(self).spec_inflight() == Map::<u32, O>::empty(),
            final(self).spec_state() == old(self).spec_state(),
            final(self).spec_idle_since() == old(self).spec_idle_since(),
            exists|keys: Seq<u32>| #[trigger] answered_in_order(old(self).spec_inflight(), keys, out@),
    {
        let ghost all = self.inflight@;
        let mut keys: Vec<u32> = Vec::new();
        for k in it: self.inflight.keys()
            invariant
                it.seq() == vstd::std_specs::hash::spec_keys_iter(&self.inflight).remaining(),
                keys@ == it.seq().take(it.index()).map_values(|r: &u32| *r),
        {
            keys.push(*k);
        }
        proof {
            let rem = vstd::std_specs::hash::spec_keys_iter(&self.inflight).remaining();
            assert(keys@ == rem.map_values(|r: &u32| *r));
            assert(rem.unref() == rem.map_values(|r: &u32| *r));
        }
        let mut out: Vec<(O, Response)> = Vec::new();
        let mut i: usize = 0;
        while i < keys.len()
            invariant
                i <= keys.len(),
                keys@.no_duplicates(),
                keys@.to_set() == all.dom(),
                out@.len() == i,
                forall|j: int| 0 <= j < i ==> #[trigger] out@[j] == (all[keys@[j]], aborted_reply()),
                forall|k: u32| #[trigger] self.inflight@.contains_key(k) <==> (all.contains_key(k)
                    && !keys@.take(i as int).contains(k)),
                forall|k: u32| self.inflight@.contains_key(k) ==> #[trigger] self.inflight@[k] == all[k],
                self.state == old(self).state,
                self.idle_since == old(self).idle_since,
            decreases keys.len() - i,
        {
            let k = keys[i];
            proof {
                assert(keys@.to_set().contains(k));
                assert(!keys@.take(i as int).contains(k)) by {
                    if keys@.take(i as int).contains(k) {
                        let j = choose|j: int| 0 <= j < i && keys@.take(i as int)[j] == k;
                        assert(keys@[j] == keys@[i as int]);
                    }
                }
                assert(keys@.take(i + 1) == keys@.take(i as int).push(k));
                assert(self.inflight@.contains_key(k));
            }
            let taken = self.inflight.remove(&k);
            match taken {
                Some(observer) => {
                    out.push((observer, Response::ListRange { status: Status::Aborted }));
                },
                None => {},
            }
            proof {
                let before = keys@.take(i as int);
                let after = keys@.take(i + 1);
                assert forall|x: u32| #[trigger] after.contains(x) <==> (before.contains(x) || x == k) by {
                    if before.contains(x) {
                        let j = choose|j: int| 0 <= j < before.len() && before[j] == x;
                        assert(after[j] == x);
                    }
                    if x == k {
                        assert(after[i as int] == x);
                    }
                    if after.contains(x) && x != k {
                        let j = choose|j: int| 0 <= j < after.len() && after[j] == x;
                        assert(before[j] == x);
                    }
                }
            }
            i = i + 1;
        }
        proof {
            assert(keys@.take(keys@.len() as int) == keys@);
            assert forall|k: u32| !self.inflight@.contains_key(k) by {
                if all.contains_key(k) {
                    assert(keys@.to_set().contains(k));
                }
            }
            assert(self.inflight@ =~= Map::<u32, O>::empty());
        }
        assert(answered_in_order(old(self).spec_inflight(), keys@, out@));
        out
    }
}


} // verus!
