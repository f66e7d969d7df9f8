use vstd::prelude::*;

use crate::codec::text::{decimal, u64_to_decimal_string};

verus! {

/// The address a worker listens on: every interface, at the configured port.
pub open spec fn bind_address(port: u16) -> Seq<char> {
    seq!['0', '.', '0', '.', '0', '.', '0', ':'] + decimal(port as nat)
}

/// Renders the address a worker listens on.
pub fn listen_address(port: u16) -> (s: String)
    ensures
        s@ == bind_address(port),
{
    let mut s = String::from_str("0.0.0.0:");
    proof {
        reveal_strlit("0.0.0.0:");
    }
    let digits = u64_to_decimal_string(port as u64);
    s.append(digits.as_str());
    s
}

/// What a worker does next while it waits, at shutdown, for its connections to go away.
#[derive(Debug, Clone, Copy, PartialEq, Eq, Structural)]
pub enum DrainStep {
    /// Stop waiting.
    Finished,
    /// Sleep for a second, then call `after_sleep`.
    Sleep,
}

/// The wait of a worker, once it stops accepting connections, for those still open:
/// it polls once a second and gives up after the grace period. Instants are in
/// nanoseconds on a monotonic clock.
pub struct ShutdownDrain {
    start: u64,
    grace: u64,
}

impl ShutdownDrain {
    pub closed spec fn spec_start(&self) -> u64 {
        self.start
    }

    pub closed spec fn spec_grace(&self) -> u64 {
        self.grace
    }

    pub fn new(start: u64, grace: u64) -> (d: ShutdownDrain)
        ensures
            d.spec_start() == start,
            d.spec_grace() == grace,
    {
        ShutdownDrain { start, grace }
    }

    /// Checks the connections still open: the wait is over when none is left.
    pub fn poll(&self, remaining: usize) -> (step: DrainStep)
        ensures
            remaining == 0 ==> step == DrainStep::Finished,
            remaining > 0 ==> step == DrainStep::Sleep,
    {
        if remaining == 0 {
            DrainStep::Finished
        } else {
            DrainStep::Sleep
        }
    }

    /// After a sleep: the wait is over once the grace period has run out.
    pub fn after_sleep(&self, now: u64) -> (expired: bool)
        ensures
            expired == (now >= self.spec_start() + self.spec_grace()),
    {
        if now < self.start {
            false
        } else {
            now - self.start >= self.grace
        }
    }
}

} // verus!
