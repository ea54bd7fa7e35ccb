//! A browser instance as the pool tracks it: identity and timestamps.
//!
//! The pool never inspects the browser process itself; it reasons about an
//! instance through this record of plain values.  Clock readings are
//! milliseconds on a monotonic clock that the caller supplies.

use vstd::prelude::*;

verus! {

/// One browser process as tracked by the pool.
///
/// Identity is by `id` alone; the two timestamps are readings of the
/// caller's monotonic clock, in milliseconds.
#[derive(Clone, Copy, Debug, PartialEq, Eq, Structural)]
pub struct TrackedBrowser {
    /// Unique, monotonically assigned at admission to the pool.
    pub id: u64,
    /// Clock reading at which the instance was created.
    pub created_at: u64,
    /// Clock reading of the last successful ping (advisory).
    pub last_ping_at: u64,
}

/// Age of an instance at clock reading `now`, zero if the clock reads
/// earlier than the creation time.
pub open spec fn spec_age(t: TrackedBrowser, now: u64) -> int {
    if now >= t.created_at {
        now - t.created_at
    } else {
        0
    }
}

/// Whether an instance has outlived `ttl` milliseconds at reading `now`:
/// its age strictly exceeds the TTL.
pub open spec fn spec_expired(t: TrackedBrowser, ttl: u64, now: u64) -> bool {
    spec_age(t, now) > ttl
}

impl TrackedBrowser {
    /// The unique identifier of this instance.
    pub fn id(&self) -> (r: u64)
        ensures
            r == self.id,
    {
        self.id
    }

    /// The clock reading at which this instance was created.
    pub fn created_at(&self) -> (r: u64)
        ensures
            r == self.created_at,
    {
        self.created_at
    }

    /// Milliseconds this instance has lived at clock reading `now`.
    pub fn age(&self, now: u64) -> (r: u64)
        ensures
            r == spec_age(*self, now),
    {
        if now >= self.created_at {
            now - self.created_at
        } else {
            0
        }
    }

    /// Whole minutes this instance has lived at clock reading `now`.
    pub fn age_minutes(&self, now: u64) -> (r: u64)
        ensures
            r == spec_age(*self, now) / 60_000,
    {
        self.age(now) / 60_000
    }

    /// Whether this instance has outlived `ttl` milliseconds at `now`.
    pub fn is_expired(&self, ttl: u64, now: u64) -> (r: bool)
        ensures
            r == spec_expired(*self, ttl, now),
    {
        self.age(now) > ttl
    }
}

} // verus!
