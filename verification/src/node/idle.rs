//! Idle detection of a connection.
use vstd::prelude::*;

verus! {

/// Tracks when a connection last read and wrote, to close it once both have been idle for
/// longer than the configured duration.
///
/// Instants are nanoseconds of a monotonic clock; the caller reads the clock.
#[derive(Debug, Clone, Copy)]
pub struct IdleHandler {
    idle_duration: u64,
    last_read: u64,
    last_write: u64,
}

impl IdleHandler {
    pub closed spec fn spec_idle_duration(&self) -> u64 {
        self.idle_duration
    }

    pub closed spec fn spec_last_read(&self) -> u64 {
        self.last_read
    }

    pub closed spec fn spec_last_write(&self) -> u64 {
        self.last_write
    }

    /// A handler for a connection opened at `now`.
    pub fn new(idle_duration: u64, now: u64) -> (h: IdleHandler)
        ensures
            h.spec_idle_duration() == idle_duration,
            h.spec_last_read() == now,
            h.spec_last_write() == now,
    {
        IdleHandler { idle_duration, last_read: now, last_write: now }
    }

    pub fn on_read(&mut self, now: u64)
        ensures
            final(self).spec_last_read() == now,
            final(self).spec_last_write() == old(self).spec_last_write(),
            final(self).spec_idle_duration() == old(self).spec_idle_duration(),
    {
        self.last_read = now;
    }

    pub fn on_write(&mut self, now: u64)
        ensures
            final(self).spec_last_write() == now,
            final(self).spec_last_read() == old(self).spec_last_read(),
            final(self).spec_idle_duration() == old(self).spec_idle_duration(),
    {
        self.last_write = now;
    }

    /// Nothing has been read for longer than the idle duration.
    pub fn read_idle(&self, now: u64) -> (b: bool)
        requires
            self.spec_last_read() + self.spec_idle_duration() <= u64::MAX,
        ensures
            b == (self.spec_last_read() + self.spec_idle_duration() < now),
    {
        self.last_read + self.idle_duration < now
    }

    /// Nothing has been written for longer than the idle duration.
    pub fn write_idle(&self, now: u64) -> (b: bool)
        requires
            self.spec_last_write() + self.spec_idle_duration() <= u64::MAX,
        ensures
            b == (self.spec_last_write() + self.spec_idle_duration() < now),
    {
        self.last_write + self.idle_duration < now
    }

    /// Time since the last read; zero if `now` is not later.
    pub fn read_elapsed(&self, now: u64) -> (d: u64)
        ensures
            d == if now > self.spec_last_read() { now - self.spec_last_read() } else { 0 },
    {
        if now > self.last_read {
            now - self.last_read
        } else {
            0
        }
    }

    /// Time since the last write; zero if `now` is not later.
    pub fn write_elapsed(&self, now: u64) -> (d: u64)
        ensures
            d == if now > self.spec_last_write() { now - self.spec_last_write() } else { 0 },
    {
        if now > self.last_write {
            now - self.last_write
        } else {
            0
        }
    }

    /// The connection is to be closed: both reading and writing have been idle.
    pub fn should_close(&self, now: u64) -> (b: bool)
        requires
            self.spec_last_read() + self.spec_idle_duration() <= u64::MAX,
            self.spec_last_write() + self.spec_idle_duration() <= u64::MAX,
        ensures
            b == (self.spec_last_read() + self.spec_idle_duration() < now
                && self.spec_last_write() + self.spec_idle_duration() < now),
    {
        self.read_idle(now) && self.write_idle(now)
    }
}

} // verus!
