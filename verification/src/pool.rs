//! The pool core: a verified state machine over tracked browser instances.
//!
//! The pool owns two collections.  `idle` is the ordered sequence of
//! instances available for lease, most recently returned last; `in_flight`
//! is the superset of every instance the pool still tracks, idle or leased.
//! `leased` records which ids currently back a live lease.
//!
//! The process around the pool performs the browser I/O (creation, pings)
//! and the scheduling (threads, timers, replacement tasks); it reports each
//! outcome into the transitions here, which make every decision of the
//! lifecycle.  Every transition preserves [`PoolCore::inv`], which carries
//! the pool's standing guarantees:
//!
//! - the idle pool never exceeds `max_pool_size`;
//! - every idle instance is tracked in `in_flight`, with the same record;
//! - at most one live lease exists per instance id.

use vstd::prelude::*;

use crate::config::BrowserPoolConfig;
use crate::error::BrowserPoolError;
use crate::instance::TrackedBrowser;
use crate::keepalive::FailureCounts;
use crate::instance::spec_age;
use crate::instance::spec_expired;
use crate::stats::PoolStats;

verus! {

/// Spacing between staggered instance births during warmup, in milliseconds.
pub const STAGGER_INTERVAL_MS: u64 = 30_000;

/// Margin before the TTL within which an idle instance is no longer handed
/// out, in milliseconds.  Equal to the stagger interval, so that an instance
/// skipped here is retired by the keep-alive loop within one cycle.
pub const GRACE_PERIOD_MS: u64 = 30_000;

/// Whether some element of `s` carries the id `id`.
pub open spec fn contains_id(s: Seq<TrackedBrowser>, id: u64) -> bool {
    exists|i: int| 0 <= i < s.len() && s[i].id == id
}

/// Whether the ids in `s` are pairwise distinct.
pub open spec fn unique_ids(s: Seq<TrackedBrowser>) -> bool {
    forall|i: int, j: int| 0 <= i < j < s.len() ==> s[i].id != s[j].id
}

/// Whether `s` holds the record `t` itself (not merely its id).
pub open spec fn has_record(s: Seq<TrackedBrowser>, t: TrackedBrowser) -> bool {
    exists|i: int| 0 <= i < s.len() && s[i] == t
}

/// The record in `s` carrying id `id` (meaningful when ids are unique and
/// the id is present).
pub open spec fn record_of(s: Seq<TrackedBrowser>, id: u64) -> TrackedBrowser {
    s[choose|i: int| 0 <= i < s.len() && s[i].id == id]
}

/// Whether `s` holds a record with the same identity and birth time as `t`
/// (the advisory ping timestamp may differ).
pub open spec fn id_born_in(s: Seq<TrackedBrowser>, t: TrackedBrowser) -> bool {
    exists|k: int| 0 <= k < s.len() && s[k].id == t.id && s[k].created_at == t.created_at
}

/// What `acquire` decided.
#[derive(Clone, Copy, Debug, PartialEq, Eq, Structural)]
pub enum AcquireOutcome {
    /// A healthy idle instance was leased out.
    Leased(TrackedBrowser),
    /// The idle pool is exhausted; the caller should create a fresh
    /// instance and admit it with [`PoolCore::admit_leased`].
    NeedsCreate,
    /// The shutdown latch is set; nothing is handed out.
    ShuttingDown,
}

/// What `release` decided for a returned instance.
#[derive(Clone, Copy, Debug, PartialEq, Eq, Structural)]
pub enum ReleaseOutcome {
    /// The pool is shutting down; the instance is discarded.
    DiscardedShutdown,
    /// The instance is no longer tracked; the return is stale and ignored.
    Stale,
    /// The instance outlived its TTL and was retired; the caller should
    /// schedule one replacement.
    Expired,
    /// The instance is already idle; this duplicate return is discarded.
    Duplicate,
    /// The instance went back into the idle pool.
    Returned,
    /// The idle pool is full; the instance was dropped from tracking.
    Shrunk,
}

/// The sequential core of the browser pool.
pub struct PoolCore {
    /// Validated configuration, immutable after construction.
    pub config: BrowserPoolConfig,
    /// Instances available for lease; most recently returned last.
    pub idle: Vec<TrackedBrowser>,
    /// Every instance the pool tracks, idle and leased alike.
    pub in_flight: Vec<TrackedBrowser>,
    /// Ids of instances currently backing a live lease.
    pub leased: Vec<u64>,
    /// One-way shutdown latch.
    pub shutting_down: bool,
    /// Next id to mint; ids are process-wide unique.
    pub next_id: u64,
}

impl PoolCore {
    /// The idle pool never exceeds the configured capacity.
    pub open spec fn idle_within_capacity(self) -> bool {
        self.idle@.len() <= self.config.max_pool_size
    }

    /// Every idle instance is tracked in `in_flight`, as the same record.
    pub open spec fn idle_tracked_in_flight(self) -> bool {
        forall|i: int|
            0 <= i < self.idle@.len() ==> has_record(self.in_flight@, #[trigger] self.idle@[i])
    }

    /// No two live leases share an id.
    pub open spec fn leases_unique(self) -> bool {
        self.leased@.no_duplicates()
    }

    /// A leased instance is never also idle.
    pub open spec fn leased_disjoint_from_idle(self) -> bool {
        forall|i: int|
            0 <= i < self.leased@.len() ==> !contains_id(self.idle@, #[trigger] self.leased@[i])
    }

    /// Every id the pool has seen is below the next one to mint.
    pub open spec fn ids_below_next(self) -> bool {
        &&& forall|i: int|
            0 <= i < self.in_flight@.len() ==> (#[trigger] self.in_flight@[i]).id < self.next_id
        &&& forall|i: int| 0 <= i < self.leased@.len() ==> (#[trigger] self.leased@[i]) < self.next_id
    }

    /// The pool's standing invariant, preserved by every transition.
    pub open spec fn inv(self) -> bool {
        &&& self.config.wf()
        &&& unique_ids(self.in_flight@)
        &&& unique_ids(self.idle@)
        &&& self.idle_within_capacity()
        &&& self.idle_tracked_in_flight()
        &&& self.leases_unique()
        &&& self.leased_disjoint_from_idle()
        &&& self.ids_below_next()
    }

    /// The state `s` with the shutdown latch set and nothing else changed.
    pub open spec fn with_shutdown(s: PoolCore) -> PoolCore {
        PoolCore { shutting_down: true, ..s }
    }

    /// Whether two states agree on everything the pool's contracts speak
    /// of: configuration, collections (by contents), latch and id counter.
    pub open spec fn same_state(a: PoolCore, b: PoolCore) -> bool {
        &&& a.config == b.config
        &&& a.idle@ == b.idle@
        &&& a.in_flight@ == b.in_flight@
        &&& a.leased@ == b.leased@
        &&& a.shutting_down == b.shutting_down
        &&& a.next_id == b.next_id
    }

    /// An empty pool under the given configuration.
    pub fn new(config: BrowserPoolConfig) -> (r: PoolCore)
        requires
            config.wf(),
        ensures
            r.inv(),
            r.config == config,
            r.idle@.len() == 0,
            r.in_flight@.len() == 0,
            r.leased@.len() == 0,
            !r.shutting_down,
            r.next_id == 0,
    {
        PoolCore {
            config,
            idle: Vec::new(),
            in_flight: Vec::new(),
            leased: Vec::new(),
            shutting_down: false,
            next_id: 0,
        }
    }

    /// The pool's configuration.
    pub fn config(&self) -> (r: BrowserPoolConfig)
        ensures
            r == self.config,
    {
        self.config
    }

    /// Whether the shutdown latch is set.
    pub fn is_shutting_down(&self) -> (r: bool)
        ensures
            r == self.shutting_down,
    {
        self.shutting_down
    }

    /// A snapshot of the pool's occupancy: `available` idle instances,
    /// `active` tracked instances, `total` equal to `active`.
    pub fn stats(&self) -> (r: PoolStats)
        ensures
            r.available == self.idle@.len(),
            r.active == self.in_flight@.len(),
            r.total == self.in_flight@.len(),
    {
        PoolStats { available: self.idle.len(), active: self.in_flight.len(), total: self.in_flight.len() }
    }

    /// Whether the pool can serve a request now or has room to create:
    /// an instance is idle, or tracking is below capacity.
    pub fn is_ready(&self) -> (r: bool)
        ensures
            r <==> (self.idle@.len() > 0 || self.in_flight@.len() < self.config.max_pool_size),
    {
        self.idle.len() > 0 || self.in_flight.len() < self.config.max_pool_size
    }

    /// Number of live leases.
    pub fn leased_count(&self) -> (r: usize)
        ensures
            r == self.leased@.len(),
    {
        self.leased.len()
    }

    /// Whether the pool still tracks an instance with this id.
    pub fn tracks(&self, id: u64) -> (r: bool)
        ensures
            r <==> contains_id(self.in_flight@, id),
    {
        let mut k: usize = 0;
        while k < self.in_flight.len()
            invariant
                k <= self.in_flight@.len(),
                forall|i: int| 0 <= i < k ==> self.in_flight@[i].id != id,
            decreases self.in_flight@.len() - k,
        {
            if self.in_flight[k].id == id {
                return true;
            }
            k = k + 1;
        }
        false
    }

    /// Whether a live lease currently exists for `id`.
    pub fn is_leased(&self, id: u64) -> (r: bool)
        ensures
            r <==> self.leased@.contains(id),
    {
        let mut k: usize = 0;
        while k < self.leased.len()
            invariant
                k <= self.leased@.len(),
                forall|i: int| 0 <= i < k ==> self.leased@[i] != id,
            decreases self.leased@.len() - k,
        {
            if self.leased[k] == id {
                return true;
            }
            k = k + 1;
        }
        false
    }

    /// Set the shutdown latch.  Setting it twice has the same effect as
    /// setting it once; see [`lemma_shutdown_idempotent`].
    pub fn shutdown(&mut self)
        ensures
            *final(self) == PoolCore::with_shutdown(*old(self)),
    {
        self.shutting_down = true;
    }
}

/// Index of the (unique) element of `v` carrying id `id`, if present.
fn find_by_id(v: &Vec<TrackedBrowser>, id: u64) -> (r: Option<usize>)
    ensures
        r matches Some(i) ==> i < v@.len() && v@[i as int].id == id,
        r is None ==> !contains_id(v@, id),
{
    let mut k: usize = 0;
    while k < v.len()
        invariant
            k <= v@.len(),
            forall|i: int| 0 <= i < k ==> v@[i].id != id,
        decreases v@.len() - k,
    {
        if v[k].id == id {
            return Some(k);
        }
        k = k + 1;
    }
    None
}

/// Remove the (unique) element of `v` carrying id `id`, if present.
fn remove_by_id(v: &mut Vec<TrackedBrowser>, id: u64) -> (removed: bool)
    requires
        unique_ids(old(v)@),
    ensures
        removed <==> contains_id(old(v)@, id),
        unique_ids(final(v)@),
        !contains_id(final(v)@, id),
        forall|x: u64| x != id ==> (contains_id(final(v)@, x) <==> contains_id(old(v)@, x)),
        forall|t: TrackedBrowser|
            t.id != id ==> (has_record(final(v)@, t) <==> has_record(old(v)@, t)),
        forall|i: int| 0 <= i < final(v)@.len() ==> has_record(old(v)@, #[trigger] final(v)@[i]),
        removed ==> final(v)@.len() == old(v)@.len() - 1,
        !removed ==> final(v)@ == old(v)@,
{
    match find_by_id(v, id) {
        None => false,
        Some(i) => {
            let ghost prev = v@;
            v.remove(i);
            proof {
                assert(v@ =~= prev.subrange(0, i as int) + prev.subrange(
                    i + 1,
                    prev.len() as int,
                ));
                assert forall|j: int| 0 <= j < v@.len() implies has_record(
                    prev,
                    #[trigger] v@[j],
                ) by {
                    if j < i {
                        assert(v@[j] == prev[j]);
                    } else {
                        assert(v@[j] == prev[j + 1]);
                    }
                }
                assert forall|j: int| 0 <= j < v@.len() implies v@[j].id != id by {
                    if j < i {
                        assert(prev[j].id != prev[i as int].id);
                    } else {
                        assert(prev[j + 1].id != prev[i as int].id);
                    }
                }
                assert forall|x: u64| x != id && contains_id(prev, x) implies contains_id(
                    v@,
                    x,
                ) by {
                    let j = choose|j: int| 0 <= j < prev.len() && prev[j].id == x;
                    if j < i {
                        assert(v@[j].id == x);
                    } else {
                        assert(j != i);
                        assert(v@[j - 1].id == x);
                    }
                }
                assert forall|t: TrackedBrowser| t.id != id && has_record(prev, t) implies
                    has_record(v@, t) by {
                    let j = choose|j: int| 0 <= j < prev.len() && prev[j] == t;
                    if j < i {
                        assert(v@[j] == t);
                    } else {
                        assert(j != i);
                        assert(v@[j - 1] == t);
                    }
                }
                assert forall|j: int, k: int| 0 <= j < k < v@.len() implies v@[j].id != v@[k].id by {
                    let j0 = if j < i { j } else { j + 1 };
                    let k0 = if k < i { k } else { k + 1 };
                    assert(v@[j] == prev[j0]);
                    assert(v@[k] == prev[k0]);
                }
            }
            true
        },
    }
}

/// Remove the value `x` from `v`, which holds no duplicates.
fn remove_u64(v: &mut Vec<u64>, x: u64)
    requires
        old(v)@.no_duplicates(),
    ensures
        final(v)@.no_duplicates(),
        !final(v)@.contains(x),
        forall|y: u64| y != x ==> (final(v)@.contains(y) <==> old(v)@.contains(y)),
        old(v)@.contains(x) ==> final(v)@.len() == old(v)@.len() - 1,
        !old(v)@.contains(x) ==> final(v)@ == old(v)@,
{
    let mut k: usize = 0;
    let n = v.len();
    while k < n
        invariant
            v@ == old(v)@,
            n == v@.len(),
            k <= n,
            v@.no_duplicates(),
            forall|i: int| 0 <= i < k ==> v@[i] != x,
        decreases n - k,
    {
        if v[k] == x {
            let ghost prev = v@;
            v.remove(k);
            proof {
                assert(v@ =~= prev.subrange(0, k as int) + prev.subrange(
                    k + 1,
                    prev.len() as int,
                ));
                assert forall|j: int| 0 <= j < v@.len() implies v@[j] != x by {
                    if j < k {
                        assert(v@[j] == prev[j]);
                    } else {
                        assert(v@[j] == prev[j + 1]);
                        assert(prev[j + 1] != prev[k as int]);
                    }
                }
                assert forall|y: u64| y != x && prev.contains(y) implies v@.contains(y) by {
                    let j = choose|j: int| 0 <= j < prev.len() && prev[j] == y;
                    if j < k {
                        assert(v@[j] == y);
                    } else {
                        assert(j != k);
                        assert(v@[j - 1] == y);
                    }
                }
                assert forall|j: int, l: int| 0 <= j < l < v@.len() implies v@[j] != v@[l] by {
                    let j0 = if j < k { j } else { j + 1 };
                    let l0 = if l < k { l } else { l + 1 };
                    assert(v@[j] == prev[j0]);
                    assert(v@[l] == prev[l0]);
                }
                assert forall|y: u64| v@.contains(y) implies prev.contains(y) by {
                    let j = choose|j: int| 0 <= j < v@.len() && v@[j] == y;
                    if j < k {
                        assert(prev[j] == y);
                    } else {
                        assert(prev[j + 1] == y);
                    }
                }
            }
            return ;
        }
        k = k + 1;
    }
}

impl PoolCore {
    /// Take a lease on a healthy idle instance, or report what stands in
    /// the way.
    ///
    /// Candidates are popped from the warm end of the idle pool.  One
    /// within [`GRACE_PERIOD_MS`] of its TTL is skipped: it stays tracked
    /// in `in_flight`, where the keep-alive loop will retire and replace
    /// it, but it is never handed out (any leased instance satisfies
    /// `age + GRACE_PERIOD_MS <= browser_ttl`).  A candidate whose ping
    /// fails is dropped from tracking and the next one is tried.  When the
    /// idle pool is exhausted the caller creates a fresh instance and
    /// admits it with [`PoolCore::admit_leased`].
    pub fn acquire<F: Fn(u64) -> bool>(&mut self, now: u64, ping: F) -> (r: AcquireOutcome)
        requires
            old(self).inv(),
            forall|id: u64| #[trigger] call_requires(ping, (id,)),
        ensures
            final(self).inv(),
            final(self).config == old(self).config,
            final(self).shutting_down == old(self).shutting_down,
            final(self).next_id == old(self).next_id,
            (r == AcquireOutcome::ShuttingDown) <==> old(self).shutting_down,
            old(self).shutting_down ==> PoolCore::same_state(*final(self), *old(self)),
            final(self).idle@.is_prefix_of(old(self).idle@),
            forall|i: int|
                0 <= i < final(self).in_flight@.len() ==> has_record(
                    old(self).in_flight@,
                    #[trigger] final(self).in_flight@[i],
                ),
            // only a popped candidate whose ping failed leaves tracking; a
            // near-expiry candidate is skipped but stays in in-flight:
            forall|x: u64|
                contains_id(old(self).in_flight@, x) && !contains_id(final(self).in_flight@, x)
                    ==> contains_id(old(self).idle@, x) && spec_age(
                    record_of(old(self).in_flight@, x),
                    now,
                ) + GRACE_PERIOD_MS <= old(self).config.browser_ttl,
            r matches AcquireOutcome::Leased(c) ==> {
                &&& has_record(old(self).idle@, c)
                &&& spec_age(c, now) + GRACE_PERIOD_MS <= old(self).config.browser_ttl
                &&& call_ensures(ping, (c.id,), true)
                &&& !old(self).leased@.contains(c.id)
                &&& final(self).leased@ == old(self).leased@.push(c.id)
                &&& contains_id(final(self).in_flight@, c.id)
            },
            r matches AcquireOutcome::Leased(c)
                ==> (old(self).idle@.len() == 1 ==> c == old(self).idle@[0]),
            r == AcquireOutcome::NeedsCreate
                ==> final(self).idle@.len() == 0 && final(self).leased@ == old(self).leased@,
            // a fresh creation is asked for only once every fit idle
            // candidate was pinged and answered unhealthy:
            r == AcquireOutcome::NeedsCreate ==> forall|c: TrackedBrowser|
                #[trigger] has_record(old(self).idle@, c) && spec_age(c, now) + GRACE_PERIOD_MS
                    <= old(self).config.browser_ttl ==> call_ensures(ping, (c.id,), false),
            !old(self).shutting_down && old(self).idle@.len() == 0
                ==> PoolCore::same_state(*final(self), *old(self))
                && r == AcquireOutcome::NeedsCreate,
    {
        if self.shutting_down {
            return AcquireOutcome::ShuttingDown;
        }
        let ttl = self.config.browser_ttl;
        loop
            invariant
                self.inv(),
                old(self).inv(),
                !self.shutting_down,
                !old(self).shutting_down,
                self.config == old(self).config,
                self.next_id == old(self).next_id,
                self.leased@ == old(self).leased@,
                self.idle@.is_prefix_of(old(self).idle@),
                forall|id: u64| #[trigger] call_requires(ping, (id,)),
                forall|i: int|
                    0 <= i < self.in_flight@.len() ==> has_record(
                        old(self).in_flight@,
                        #[trigger] self.in_flight@[i],
                    ),
                forall|x: u64|
                    contains_id(old(self).in_flight@, x) && !contains_id(self.in_flight@, x)
                        ==> contains_id(old(self).idle@, x) && spec_age(
                        record_of(old(self).in_flight@, x),
                        now,
                    ) + GRACE_PERIOD_MS <= old(self).config.browser_ttl,
                forall|c: TrackedBrowser|
                    #[trigger] has_record(old(self).idle@, c) && !has_record(self.idle@, c)
                        && spec_age(c, now) + GRACE_PERIOD_MS <= old(self).config.browser_ttl
                        ==> call_ensures(ping, (c.id,), false),
                old(self).idle@.len() == 0 ==> PoolCore::same_state(*self, *old(self)),
                ttl == self.config.browser_ttl,
            decreases self.idle@.len(),
        {
            let ghost idle_before = self.idle@;
            let popped = self.idle.pop();
            match popped {
                None => {
                    return AcquireOutcome::NeedsCreate;
                },
                Some(c) => {
                    proof {
                        assert(c == idle_before[idle_before.len() - 1]);
                        assert(has_record(old(self).idle@, c)) by {
                            assert(idle_before.is_prefix_of(old(self).idle@));
                            assert(old(self).idle@[idle_before.len() - 1] == c);
                        }
                    }
                    let age = c.age(now);
                    if ttl < GRACE_PERIOD_MS || age > ttl - GRACE_PERIOD_MS {
                        // Near expiry: leave it tracked for the keep-alive
                        // loop, hand it to nobody.
                        proof {
                            assert forall|c2: TrackedBrowser|
                                #[trigger] has_record(old(self).idle@, c2) && !has_record(
                                    self.idle@,
                                    c2,
                                ) && spec_age(c2, now) + GRACE_PERIOD_MS
                                <= old(self).config.browser_ttl implies call_ensures(
                                ping,
                                (c2.id,),
                                false,
                            ) by {
                                if c2 == c {
                                    assert(spec_age(c, now) + GRACE_PERIOD_MS > ttl);
                                } else {
                                    assert(!has_record(idle_before, c2)) by {
                                        if has_record(idle_before, c2) {
                                            let p = choose|p: int|
                                                0 <= p < idle_before.len() && idle_before[p] == c2;
                                            if p < idle_before.len() - 1 {
                                                assert(self.idle@[p] == idle_before[p]);
                                            }
                                        }
                                    }
                                }
                            }
                        }
                        continue ;
                    }
                    let cid = c.id();
                    proof {
                        assert(call_requires(ping, (cid,)));
                    }
                    if ping(cid) {
                        proof {
                            assert(!self.leased@.contains(c.id)) by {
                                if self.leased@.contains(c.id) {
                                    let i = choose|i: int|
                                        0 <= i < self.leased@.len() && self.leased@[i] == c.id;
                                    assert(contains_id(idle_before, self.leased@[i])) by {
                                        assert(idle_before[idle_before.len() - 1].id == c.id);
                                    }
                                }
                            }
                            assert(has_record(self.in_flight@, c));
                        }
                        self.leased.push(c.id());
                        proof {
                            assert(self.leased@ == old(self).leased@.push(c.id));
                            assert(contains_id(self.in_flight@, c.id)) by {
                                let i = choose|i: int|
                                    0 <= i < self.in_flight@.len() && self.in_flight@[i] == c;
                                assert(self.in_flight@[i].id == c.id);
                            }
                            assert forall|i: int| 0 <= i < self.leased@.len() implies !contains_id(
                                self.idle@,
                                #[trigger] self.leased@[i],
                            ) by {
                                if i < self.leased@.len() - 1 {
                                    assert(!contains_id(idle_before, self.leased@[i]));
                                    assert forall|j: int|
                                        0 <= j < self.idle@.len() implies self.idle@[j].id
                                        != self.leased@[i] by {
                                        assert(self.idle@[j] == idle_before[j]);
                                    }
                                } else {
                                    assert(self.leased@[i] == c.id);
                                    assert forall|j: int|
                                        0 <= j < self.idle@.len() implies self.idle@[j].id != c.id by {
                                        assert(self.idle@[j] == idle_before[j]);
                                        assert(idle_before[j].id != idle_before[idle_before.len()
                                            - 1].id);
                                    }
                                }
                            }
                        }
                        return AcquireOutcome::Leased(c);
                    } else {
                        let ghost pre_remove = self.in_flight@;
                        let _ = remove_by_id(&mut self.in_flight, c.id());
                        proof {
                            assert forall|c2: TrackedBrowser|
                                #[trigger] has_record(old(self).idle@, c2) && !has_record(
                                    self.idle@,
                                    c2,
                                ) && spec_age(c2, now) + GRACE_PERIOD_MS
                                <= old(self).config.browser_ttl implies call_ensures(
                                ping,
                                (c2.id,),
                                false,
                            ) by {
                                if c2 == c {
                                    assert(call_ensures(ping, (cid,), false));
                                } else {
                                    assert(!has_record(idle_before, c2)) by {
                                        if has_record(idle_before, c2) {
                                            let p = choose|p: int|
                                                0 <= p < idle_before.len() && idle_before[p] == c2;
                                            if p < idle_before.len() - 1 {
                                                assert(self.idle@[p] == idle_before[p]);
                                            }
                                        }
                                    }
                                }
                            }
                            // the removed candidate came from the idle pool and
                            // had passed the grace check
                            assert(contains_id(old(self).idle@, c.id)) by {
                                assert(old(self).idle@[idle_before.len() - 1] == c);
                            }
                            assert(record_of(old(self).in_flight@, c.id) == c) by {
                                assert(has_record(old(self).in_flight@, c)) by {
                                    assert(has_record(pre_remove, c));
                                    let m = choose|m: int|
                                        0 <= m < pre_remove.len() && pre_remove[m] == c;
                                    assert(has_record(old(self).in_flight@, pre_remove[m]));
                                }
                                let m = choose|m: int|
                                    0 <= m < old(self).in_flight@.len() && old(self).in_flight@[m]
                                        == c;
                                let m2 = choose|m2: int|
                                    0 <= m2 < old(self).in_flight@.len() && old(self).in_flight@[m2].id == c.id;
                                assert(m == m2) by {
                                    if m < m2 {
                                        assert(old(self).in_flight@[m].id != old(self).in_flight@[m2].id);
                                    } else if m2 < m {
                                        assert(old(self).in_flight@[m2].id != old(self).in_flight@[m].id);
                                    }
                                }
                            }
                            assert forall|x: u64|
                                contains_id(old(self).in_flight@, x) && !contains_id(
                                    self.in_flight@,
                                    x,
                                ) implies contains_id(old(self).idle@, x) && spec_age(
                                record_of(old(self).in_flight@, x),
                                now,
                            ) + GRACE_PERIOD_MS <= old(self).config.browser_ttl by {
                                if x != c.id {
                                    assert(contains_id(pre_remove, x) == contains_id(
                                        self.in_flight@,
                                        x,
                                    ));
                                }
                            }
                            assert forall|i: int| 0 <= i < self.idle@.len() implies has_record(
                                self.in_flight@,
                                #[trigger] self.idle@[i],
                            ) by {
                                assert(self.idle@[i] == idle_before[i]);
                                assert(has_record(idle_before, self.idle@[i]));
                                assert(self.idle@[i].id != c.id) by {
                                    assert(idle_before[i].id != idle_before[idle_before.len()
                                        - 1].id);
                                }
                            }
                        }
                    }
                },
            }
        }
    }
}

/// Whether `id` names an expired instance among the first `k` entries of
/// `s`.
pub open spec fn names_expired(id: u64, s: Seq<TrackedBrowser>, k: int, ttl: u64, now: u64) -> bool {
    exists|j: int| 0 <= j < k && id == (#[trigger] s[j]).id && spec_expired(s[j], ttl, now)
}

/// Every id in `ids` names an expired instance among the first `k`
/// entries of `s`.
pub open spec fn ids_name_expired(
    ids: Seq<u64>,
    s: Seq<TrackedBrowser>,
    k: int,
    ttl: u64,
    now: u64,
) -> bool {
    forall|m: int| 0 <= m < ids.len() ==> #[trigger] names_expired(ids[m], s, k, ttl, now)
}

/// A concrete index witnesses [`names_expired`].
proof fn lemma_names_expired_witness(
    id: u64,
    s: Seq<TrackedBrowser>,
    k: int,
    ttl: u64,
    now: u64,
    j: int,
)
    requires
        0 <= j < k,
        id == s[j].id,
        spec_expired(s[j], ttl, now),
    ensures
        names_expired(id, s, k, ttl, now),
{
    assert(0 <= j < k && id == s[j].id && spec_expired(s[j], ttl, now));
}

/// [`names_expired`] only grows with the searched prefix.
proof fn lemma_names_expired_widen(
    id: u64,
    s: Seq<TrackedBrowser>,
    k: int,
    k2: int,
    ttl: u64,
    now: u64,
)
    requires
        names_expired(id, s, k, ttl, now),
        k <= k2,
    ensures
        names_expired(id, s, k2, ttl, now),
{
    let j = choose|j: int| 0 <= j < k && id == (#[trigger] s[j]).id && spec_expired(s[j], ttl, now);
    lemma_names_expired_witness(id, s, k2, ttl, now, j);
}

/// Number of successful creations a warmup report holds.
pub open spec fn num_created(results: Seq<Option<u64>>) -> int
    decreases results.len(),
{
    if results.len() == 0 {
        0
    } else {
        num_created(results.drop_last()) + (if results.last() is Some {
            1int
        } else {
            0int
        })
    }
}

/// The records warmup admits for a report: one per reported success, ids
/// minted sequentially from `first_id`, each born (and last pinged) at its
/// reported clock reading; a failed attempt admits nothing.
pub open spec fn warmup_records(results: Seq<Option<u64>>, first_id: int) -> Seq<TrackedBrowser>
    decreases results.len(),
{
    if results.len() == 0 {
        Seq::empty()
    } else {
        warmup_records(results.drop_last(), first_id) + (match results.last() {
            Some(t) => seq![
                TrackedBrowser {
                    id: (first_id + num_created(results.drop_last())) as u64,
                    created_at: t,
                    last_ping_at: t,
                }
            ],
            None => Seq::empty(),
        })
    }
}

/// A report holds no more successes than attempts, and no fewer than none.
pub proof fn lemma_num_created_bounds(results: Seq<Option<u64>>)
    ensures
        0 <= num_created(results) <= results.len(),
    decreases results.len(),
{
    if results.len() > 0 {
        lemma_num_created_bounds(results.drop_last());
    }
}

/// Warmup admits exactly one record per reported success.
pub proof fn lemma_warmup_records_len(results: Seq<Option<u64>>, first_id: int)
    ensures
        warmup_records(results, first_id).len() == num_created(results),
    decreases results.len(),
{
    if results.len() > 0 {
        lemma_warmup_records_len(results.drop_last(), first_id);
    }
}

/// The decision `release` makes for a returned instance, as a function of
/// the state: discard under shutdown, ignore a stale or duplicate return,
/// retire an expired instance, return it to `idle` when there is room, and
/// shrink the pool otherwise.
pub open spec fn spec_release_outcome(s: PoolCore, id: u64, now: u64) -> ReleaseOutcome {
    if s.shutting_down {
        ReleaseOutcome::DiscardedShutdown
    } else if !contains_id(s.in_flight@, id) {
        ReleaseOutcome::Stale
    } else if spec_expired(record_of(s.in_flight@, id), s.config.browser_ttl, now) {
        ReleaseOutcome::Expired
    } else if contains_id(s.idle@, id) {
        ReleaseOutcome::Duplicate
    } else if s.idle@.len() < s.config.max_pool_size {
        ReleaseOutcome::Returned
    } else {
        ReleaseOutcome::Shrunk
    }
}

impl PoolCore {
    /// End the lease on `id` and decide what becomes of the instance.
    ///
    /// The decision is exactly [`spec_release_outcome`].  On `Expired` the
    /// instance leaves both collections and the caller should schedule one
    /// replacement; on `Returned` its record joins the warm end of `idle`;
    /// on `Shrunk` it leaves `in_flight`.  Whatever the outcome, the lease
    /// on `id` is over when this returns.
    pub fn release(&mut self, id: u64, now: u64) -> (r: ReleaseOutcome)
        requires
            old(self).inv(),
        ensures
            final(self).inv(),
            final(self).config == old(self).config,
            final(self).shutting_down == old(self).shutting_down,
            final(self).next_id == old(self).next_id,
            !final(self).leased@.contains(id),
            forall|x: u64|
                x != id ==> (final(self).leased@.contains(x) <==> old(self).leased@.contains(x)),
            r == spec_release_outcome(*old(self), id, now),
            r == ReleaseOutcome::DiscardedShutdown || r == ReleaseOutcome::Stale || r
                == ReleaseOutcome::Duplicate ==> final(self).idle@ == old(self).idle@
                && final(self).in_flight@ == old(self).in_flight@,
            r == ReleaseOutcome::Expired || r == ReleaseOutcome::Shrunk ==> {
                &&& !contains_id(final(self).in_flight@, id)
                &&& final(self).in_flight@.len() == old(self).in_flight@.len() - 1
                &&& !contains_id(final(self).idle@, id)
                &&& forall|x: u64|
                    x != id ==> (contains_id(final(self).in_flight@, x) <==> contains_id(
                        old(self).in_flight@,
                        x,
                    ))
                &&& forall|x: u64|
                    x != id ==> (contains_id(final(self).idle@, x) <==> contains_id(
                        old(self).idle@,
                        x,
                    ))
            },
            r == ReleaseOutcome::Shrunk ==> final(self).idle@ == old(self).idle@,
            r == ReleaseOutcome::Returned ==> final(self).idle@ == old(self).idle@.push(
                record_of(old(self).in_flight@, id),
            ) && final(self).in_flight@ == old(self).in_flight@,
    {
        remove_u64(&mut self.leased, id);
        proof {
            assert forall|j: int| 0 <= j < self.leased@.len() implies !contains_id(
                self.idle@,
                #[trigger] self.leased@[j],
            ) && self.leased@[j] < self.next_id by {
                assert(self.leased@.contains(self.leased@[j]));
                if self.leased@[j] == id {
                    assert(self.leased@.contains(id));
                }
                assert(old(self).leased@.contains(self.leased@[j]));
                let l = choose|l: int|
                    0 <= l < old(self).leased@.len() && old(self).leased@[l] == self.leased@[j];
                assert(!contains_id(old(self).idle@, old(self).leased@[l]));
            }
        }
        if self.shutting_down {
            return ReleaseOutcome::DiscardedShutdown;
        }
        match find_by_id(&self.in_flight, id) {
            None => ReleaseOutcome::Stale,
            Some(i) => {
                let rec = self.in_flight[i];
                proof {
                    assert(rec == record_of(self.in_flight@, id)) by {
                        let j = choose|j: int|
                            0 <= j < self.in_flight@.len() && self.in_flight@[j].id == id;
                        assert(self.in_flight@[i as int].id == id);
                        assert(j == i as int);
                    }
                }
                if rec.is_expired(self.config.browser_ttl, now) {
                    let _ = remove_by_id(&mut self.in_flight, id);
                    let ghost mid_idle = self.idle@;
                    let _ = remove_by_id(&mut self.idle, id);
                    proof {
                        assert forall|k: int| 0 <= k < self.idle@.len() implies has_record(
                            self.in_flight@,
                            #[trigger] self.idle@[k],
                        ) by {
                            assert(has_record(mid_idle, self.idle@[k]));
                            assert(has_record(old(self).idle@, self.idle@[k]));
                            assert(has_record(old(self).in_flight@, self.idle@[k]));
                            assert(self.idle@[k].id != id);
                        }
                    }
                    ReleaseOutcome::Expired
                } else if find_by_id(&self.idle, id).is_some() {
                    ReleaseOutcome::Duplicate
                } else if self.idle.len() < self.config.max_pool_size {
                    self.idle.push(rec);
                    proof {
                        let ghost prev_idle = old(self).idle@;
                        assert forall|j: int, k: int|
                            0 <= j < k < self.idle@.len() implies self.idle@[j].id
                            != self.idle@[k].id by {
                            if k < self.idle@.len() - 1 {
                                assert(self.idle@[j] == prev_idle[j]);
                                assert(self.idle@[k] == prev_idle[k]);
                            } else {
                                assert(self.idle@[k] == rec);
                                assert(self.idle@[j] == prev_idle[j]);
                                assert(!contains_id(prev_idle, id));
                            }
                        }
                        assert forall|j: int| 0 <= j < self.leased@.len() implies !contains_id(
                            self.idle@,
                            #[trigger] self.leased@[j],
                        ) by {
                            assert(!self.leased@.contains(id));
                            assert(self.leased@[j] != id);
                            assert(old(self).leased@.contains(self.leased@[j]));
                            let l = choose|l: int|
                                0 <= l < old(self).leased@.len() && old(self).leased@[l]
                                    == self.leased@[j];
                            assert(!contains_id(prev_idle, old(self).leased@[l]));
                            assert forall|m: int|
                                0 <= m < self.idle@.len() implies self.idle@[m].id
                                != self.leased@[j] by {
                                if m < self.idle@.len() - 1 {
                                    assert(self.idle@[m] == prev_idle[m]);
                                } else {
                                    assert(self.idle@[m] == rec);
                                }
                            }
                        }
                    }
                    ReleaseOutcome::Returned
                } else {
                    let _ = remove_by_id(&mut self.in_flight, id);
                    proof {
                        assert forall|k: int| 0 <= k < self.idle@.len() implies has_record(
                            self.in_flight@,
                            #[trigger] self.idle@[k],
                        ) by {
                            assert(has_record(old(self).idle@, self.idle@[k]));
                            assert(has_record(old(self).in_flight@, self.idle@[k]));
                            assert(self.idle@[k].id != id);
                        }
                        assert(!contains_id(self.idle@, id));
                    }
                    ReleaseOutcome::Shrunk
                }
            },
        }
    }

    /// Add a freshly created instance to `in_flight` under a new id.
    fn mint(&mut self, now: u64) -> (t: TrackedBrowser)
        requires
            old(self).inv(),
            old(self).next_id < u64::MAX,
        ensures
            final(self).inv(),
            t.id == old(self).next_id,
            t.created_at == now,
            t.last_ping_at == now,
            final(self).in_flight@ == old(self).in_flight@.push(t),
            final(self).next_id == old(self).next_id + 1,
            final(self).idle@ == old(self).idle@,
            final(self).leased@ == old(self).leased@,
            final(self).config == old(self).config,
            final(self).shutting_down == old(self).shutting_down,
            !contains_id(old(self).in_flight@, t.id),
            !old(self).leased@.contains(t.id),
            !contains_id(old(self).idle@, t.id),
    {
        let t = TrackedBrowser { id: self.next_id, created_at: now, last_ping_at: now };
        proof {
            assert(!contains_id(self.in_flight@, t.id));
            assert(!contains_id(self.idle@, t.id)) by {
                if contains_id(self.idle@, t.id) {
                    let j = choose|j: int|
                        0 <= j < self.idle@.len() && self.idle@[j].id == t.id;
                    assert(has_record(self.in_flight@, self.idle@[j]));
                    let k = choose|k: int|
                        0 <= k < self.in_flight@.len() && self.in_flight@[k] == self.idle@[j];
                    assert(self.in_flight@[k].id == t.id);
                }
            }
            assert(!self.leased@.contains(t.id)) by {
                if self.leased@.contains(t.id) {
                    let j = choose|j: int|
                        0 <= j < self.leased@.len() && self.leased@[j] == t.id;
                }
            }
        }
        self.in_flight.push(t);
        self.next_id = self.next_id + 1;
        proof {
            let ghost prev = old(self).in_flight@;
            assert forall|j: int, k: int|
                0 <= j < k < self.in_flight@.len() implies self.in_flight@[j].id
                != self.in_flight@[k].id by {
                if k < self.in_flight@.len() - 1 {
                    assert(self.in_flight@[j] == prev[j]);
                    assert(self.in_flight@[k] == prev[k]);
                } else {
                    assert(self.in_flight@[j] == prev[j]);
                    assert(self.in_flight@[k] == t);
                    assert(prev[j].id < t.id);
                }
            }
            assert forall|j: int| 0 <= j < self.idle@.len() implies has_record(
                self.in_flight@,
                #[trigger] self.idle@[j],
            ) by {
                assert(has_record(prev, self.idle@[j]));
                let k = choose|k: int| 0 <= k < prev.len() && prev[k] == self.idle@[j];
                assert(self.in_flight@[k] == self.idle@[j]);
            }
        }
        t
    }

    /// Admit a freshly created, validated instance directly into a lease
    /// (the path `acquire` asks for with [`AcquireOutcome::NeedsCreate`]).
    pub fn admit_leased(&mut self, now: u64) -> (r: Result<TrackedBrowser, BrowserPoolError>)
        requires
            old(self).inv(),
            old(self).next_id < u64::MAX,
        ensures
            final(self).inv(),
            final(self).config == old(self).config,
            final(self).shutting_down == old(self).shutting_down,
            (r matches Err(e) && e matches BrowserPoolError::ShuttingDown)
                <==> old(self).shutting_down,
            old(self).shutting_down ==> PoolCore::same_state(*final(self), *old(self)),
            r matches Ok(t) ==> {
                &&& t.id == old(self).next_id
                &&& t.created_at == now
                &&& t.last_ping_at == now
                &&& final(self).next_id == old(self).next_id + 1
                &&& final(self).in_flight@ == old(self).in_flight@.push(t)
                &&& final(self).leased@ == old(self).leased@.push(t.id)
                &&& final(self).idle@ == old(self).idle@
                &&& !old(self).leased@.contains(t.id)
            },
            !old(self).shutting_down ==> r is Ok,
    {
        if self.shutting_down {
            return Err(BrowserPoolError::ShuttingDown);
        }
        let t = self.mint(now);
        self.leased.push(t.id);
        proof {
            let ghost prev = old(self).leased@;
            assert(self.leased@ == prev.push(t.id));
            assert(self.leased@.no_duplicates()) by {
                assert forall|j: int, k: int|
                    0 <= j < k < self.leased@.len() implies self.leased@[j] != self.leased@[k] by {
                    if k < self.leased@.len() - 1 {
                        assert(self.leased@[j] == prev[j]);
                        assert(self.leased@[k] == prev[k]);
                    } else {
                        assert(self.leased@[k] == t.id);
                        assert(self.leased@[j] == prev[j]);
                        assert(prev[j] < t.id);
                    }
                }
            }
            assert forall|j: int| 0 <= j < self.leased@.len() implies !contains_id(
                self.idle@,
                #[trigger] self.leased@[j],
            ) by {
                if j < self.leased@.len() - 1 {
                    assert(self.leased@[j] == prev[j]);
                } else {
                    assert(self.leased@[j] == t.id);
                    assert(!contains_id(old(self).idle@, t.id));
                }
            }
        }
        Ok(t)
    }

    /// Whether a replacement task should proceed: the pool is not shutting
    /// down and the idle pool is below capacity.
    pub fn replacement_should_run(&self) -> (r: bool)
        ensures
            r <==> (!self.shutting_down && self.idle@.len() < self.config.max_pool_size),
    {
        !self.shutting_down && self.idle.len() < self.config.max_pool_size
    }

    /// Admit a freshly created replacement instance: it joins `in_flight`,
    /// and the idle pool too unless that filled up meanwhile.
    pub fn admit_replacement(&mut self, now: u64) -> (r: Result<TrackedBrowser, BrowserPoolError>)
        requires
            old(self).inv(),
            old(self).next_id < u64::MAX,
        ensures
            final(self).inv(),
            final(self).config == old(self).config,
            final(self).shutting_down == old(self).shutting_down,
            final(self).leased@ == old(self).leased@,
            (r matches Err(e) && e matches BrowserPoolError::ShuttingDown)
                <==> old(self).shutting_down,
            old(self).shutting_down ==> PoolCore::same_state(*final(self), *old(self)),
            r matches Ok(t) ==> {
                &&& t.id == old(self).next_id
                &&& t.created_at == now
                &&& t.last_ping_at == now
                &&& final(self).next_id == old(self).next_id + 1
                &&& final(self).in_flight@ == old(self).in_flight@.push(t)
                &&& (old(self).idle@.len() < old(self).config.max_pool_size ==> final(self).idle@
                    == old(self).idle@.push(t))
                &&& (old(self).idle@.len() >= old(self).config.max_pool_size ==> final(self).idle@
                    == old(self).idle@)
            },
            !old(self).shutting_down ==> r is Ok,
    {
        if self.shutting_down {
            return Err(BrowserPoolError::ShuttingDown);
        }
        let t = self.mint(now);
        if self.idle.len() < self.config.max_pool_size {
            self.idle.push(t);
            proof {
                let ghost prev_idle = old(self).idle@;
                assert forall|j: int, k: int|
                    0 <= j < k < self.idle@.len() implies self.idle@[j].id != self.idle@[k].id by {
                    if k < self.idle@.len() - 1 {
                        assert(self.idle@[j] == prev_idle[j]);
                        assert(self.idle@[k] == prev_idle[k]);
                    } else {
                        assert(self.idle@[k] == t);
                        assert(self.idle@[j] == prev_idle[j]);
                    }
                }
                assert forall|j: int| 0 <= j < self.idle@.len() implies has_record(
                    self.in_flight@,
                    #[trigger] self.idle@[j],
                ) by {
                    if j < self.idle@.len() - 1 {
                        assert(self.idle@[j] == prev_idle[j]);
                        assert(has_record(old(self).in_flight@, self.idle@[j]));
                        let k = choose|k: int|
                            0 <= k < old(self).in_flight@.len() && old(self).in_flight@[k]
                                == self.idle@[j];
                        assert(self.in_flight@[k] == self.idle@[j]);
                    } else {
                        assert(self.idle@[j] == t);
                        assert(self.in_flight@[self.in_flight@.len() - 1] == t);
                    }
                }
                assert forall|j: int| 0 <= j < self.leased@.len() implies !contains_id(
                    self.idle@,
                    #[trigger] self.leased@[j],
                ) by {
                    assert(!contains_id(prev_idle, self.leased@[j]));
                    assert forall|m: int|
                        0 <= m < self.idle@.len() implies self.idle@[m].id != self.leased@[j] by {
                        if m < self.idle@.len() - 1 {
                            assert(self.idle@[m] == prev_idle[m]);
                        } else {
                            assert(self.idle@[m] == t);
                            assert(self.leased@[j] < t.id);
                        }
                    }
                }
            }
        }
        Ok(t)
    }

    /// Admit the outcomes of the warmup phase, one entry per creation
    /// attempt in order: the clock reading of a success, or `None` for a
    /// tolerated failure, which admits nothing and does not abort the
    /// phase.  Exactly the reported successes are admitted: each joins
    /// `in_flight` under a fresh sequential id, and the idle pool too
    /// while there is room.  A report of no attempts — in particular a
    /// zero `warmup_count` — changes nothing.
    ///
    /// The caller performs the staggered, time-boxed creations themselves
    /// and reports them here.
    pub fn warmup(&mut self, results: &Vec<Option<u64>>) -> (created: usize)
        requires
            old(self).inv(),
            results@.len() == old(self).config.warmup_count,
            old(self).next_id + old(self).config.warmup_count <= u64::MAX,
        ensures
            final(self).inv(),
            final(self).config == old(self).config,
            final(self).shutting_down == old(self).shutting_down,
            final(self).leased@ == old(self).leased@,
            created <= old(self).config.warmup_count,
            old(self).shutting_down ==> PoolCore::same_state(*final(self), *old(self)) && created
                == 0,
            !old(self).shutting_down ==> {
                &&& created as int == num_created(results@)
                &&& final(self).next_id == old(self).next_id + created
                &&& final(self).in_flight@ == old(self).in_flight@ + warmup_records(
                    results@,
                    old(self).next_id as int,
                )
                &&& ({
                    let room = old(self).config.max_pool_size - old(self).idle@.len();
                    let pushed = if num_created(results@) <= room {
                        num_created(results@)
                    } else {
                        room
                    };
                    final(self).idle@ == old(self).idle@ + warmup_records(
                        results@,
                        old(self).next_id as int,
                    ).take(pushed)
                })
            },
            old(self).config.warmup_count == 0 ==> PoolCore::same_state(*final(self), *old(self))
                && created == 0,
    {
        if self.shutting_down {
            return 0;
        }
        let ghost first_id = self.next_id as int;
        let n = results.len();
        let mut created: usize = 0;
        let mut i: usize = 0;
        while i < n
            invariant
                self.inv(),
                old(self).inv(),
                !self.shutting_down,
                !old(self).shutting_down,
                self.config == old(self).config,
                self.leased@ == old(self).leased@,
                n == results@.len(),
                n == old(self).config.warmup_count,
                i <= n,
                first_id == old(self).next_id as int,
                old(self).next_id + n <= u64::MAX,
                created as int == num_created(results@.take(i as int)),
                self.next_id == old(self).next_id + created,
                self.in_flight@ == old(self).in_flight@ + warmup_records(
                    results@.take(i as int),
                    first_id,
                ),
                ({
                    let room = old(self).config.max_pool_size - old(self).idle@.len();
                    let sofar = num_created(results@.take(i as int));
                    let pushed = if sofar <= room {
                        sofar
                    } else {
                        room
                    };
                    self.idle@ == old(self).idle@ + warmup_records(
                        results@.take(i as int),
                        first_id,
                    ).take(pushed)
                }),
            decreases n - i,
        {
            let ghost prev = results@.take(i as int);
            let ghost cur = results@.take(i as int + 1);
            let ghost room = old(self).config.max_pool_size - old(self).idle@.len();
            proof {
                assert(cur.drop_last() =~= prev);
                assert(cur.last() == results@[i as int]);
                lemma_num_created_bounds(prev);
                lemma_warmup_records_len(prev, first_id);
            }
            match results[i] {
                Some(born_at) => {
                    let ghost pre_in_flight = self.in_flight@;
                    let ghost pre_idle = self.idle@;
                    let t = self.mint(born_at);
                    proof {
                        assert(t.id as int == first_id + num_created(prev));
                        assert(warmup_records(cur, first_id) =~= warmup_records(prev, first_id)
                            + seq![t]);
                        assert(self.in_flight@ =~= old(self).in_flight@ + warmup_records(
                            cur,
                            first_id,
                        ));
                        lemma_warmup_records_len(cur, first_id);
                    }
                    if self.idle.len() < self.config.max_pool_size {
                        self.idle.push(t);
                        proof {
                            assert forall|j: int, k: int|
                                0 <= j < k < self.idle@.len() implies self.idle@[j].id
                                != self.idle@[k].id by {
                                if k < self.idle@.len() - 1 {
                                    assert(self.idle@[j] == pre_idle[j]);
                                    assert(self.idle@[k] == pre_idle[k]);
                                } else {
                                    assert(self.idle@[k] == t);
                                    assert(self.idle@[j] == pre_idle[j]);
                                    assert(has_record(pre_in_flight, pre_idle[j]));
                                    let m = choose|m: int|
                                        0 <= m < pre_in_flight.len() && pre_in_flight[m]
                                            == pre_idle[j];
                                    assert(pre_in_flight[m].id < t.id);
                                }
                            }
                            assert forall|j: int| 0 <= j < self.idle@.len() implies has_record(
                                self.in_flight@,
                                #[trigger] self.idle@[j],
                            ) by {
                                if j < self.idle@.len() - 1 {
                                    assert(self.idle@[j] == pre_idle[j]);
                                    assert(has_record(pre_in_flight, self.idle@[j]));
                                    let k = choose|k: int|
                                        0 <= k < pre_in_flight.len() && pre_in_flight[k]
                                            == self.idle@[j];
                                    assert(self.in_flight@[k] == self.idle@[j]);
                                } else {
                                    assert(self.idle@[j] == t);
                                    assert(self.in_flight@[self.in_flight@.len() - 1] == t);
                                }
                            }
                            assert forall|j: int| 0 <= j < self.leased@.len() implies !contains_id(
                                self.idle@,
                                #[trigger] self.leased@[j],
                            ) by {
                                assert(!contains_id(pre_idle, self.leased@[j]));
                                assert forall|m: int|
                                    0 <= m < self.idle@.len() implies self.idle@[m].id
                                    != self.leased@[j] by {
                                    if m < self.idle@.len() - 1 {
                                        assert(self.idle@[m] == pre_idle[m]);
                                    } else {
                                        assert(self.idle@[m] == t);
                                        assert(self.leased@[j] < t.id);
                                    }
                                }
                            }
                            // there was room, so every success so far is idle
                            assert(num_created(prev) <= room);
                            assert(num_created(cur) <= room);
                            assert(self.idle@ =~= old(self).idle@ + warmup_records(
                                cur,
                                first_id,
                            ).take(num_created(cur)));
                        }
                    } else {
                        proof {
                            // the idle pool is full: the report's prefix that
                            // fits is unchanged
                            assert(num_created(prev) >= room);
                            assert(warmup_records(cur, first_id).take(room) =~= warmup_records(
                                prev,
                                first_id,
                            ).take(room));
                        }
                    }
                    created = created + 1;
                },
                None => {
                    proof {
                        assert(warmup_records(cur, first_id) =~= warmup_records(prev, first_id));
                        assert(num_created(cur) == num_created(prev));
                    }
                },
            }
            i = i + 1;
        }
        proof {
            assert(results@.take(n as int) =~= results@);
            lemma_num_created_bounds(results@);
            if old(self).config.warmup_count == 0 {
                assert(created == 0);
                assert(self.in_flight@ =~= old(self).in_flight@);
                assert(self.idle@ =~= old(self).idle@);
            }
        }
        created
    }
}

impl PoolCore {
    /// Record a successful ping of `id` at clock reading `now` on both
    /// copies of its record.  The timestamp is advisory: identity, birth
    /// time and membership in either collection are untouched.
    fn touch(&mut self, id: u64, now: u64)
        requires
            old(self).inv(),
        ensures
            final(self).inv(),
            final(self).config == old(self).config,
            final(self).shutting_down == old(self).shutting_down,
            final(self).next_id == old(self).next_id,
            final(self).leased@ == old(self).leased@,
            final(self).in_flight@.len() == old(self).in_flight@.len(),
            final(self).idle@.len() == old(self).idle@.len(),
            forall|j: int|
                0 <= j < final(self).in_flight@.len() ==> (#[trigger] final(self).in_flight@[j]).id
                    == old(self).in_flight@[j].id && final(self).in_flight@[j].created_at == old(self).in_flight@[j].created_at,
            forall|j: int|
                0 <= j < final(self).idle@.len() ==> (#[trigger] final(self).idle@[j]).id == old(self).idle@[j].id && final(self).idle@[j].created_at == old(self).idle@[j].created_at,
    {
        match find_by_id(&self.in_flight, id) {
            None => {},
            Some(i) => {
                let t = self.in_flight[i];
                let t2 = TrackedBrowser { last_ping_at: now, ..t };
                let ghost prev_in_flight = self.in_flight@;
                let slot = vstd::std_specs::vec::vec_index_mut(&mut self.in_flight, i);
                *slot = t2;
                proof {
                    assert(self.in_flight@ == prev_in_flight.update(i as int, t2));
                    assert forall|j: int, k: int|
                        0 <= j < k < self.in_flight@.len() implies self.in_flight@[j].id
                        != self.in_flight@[k].id by {
                        assert(prev_in_flight[j].id != prev_in_flight[k].id);
                    }
                }
                match find_by_id(&self.idle, id) {
                    None => {
                        proof {
                            assert forall|k: int| 0 <= k < self.idle@.len() implies has_record(
                                self.in_flight@,
                                #[trigger] self.idle@[k],
                            ) by {
                                assert(has_record(prev_in_flight, self.idle@[k]));
                                let m = choose|m: int|
                                    0 <= m < prev_in_flight.len() && prev_in_flight[m]
                                        == self.idle@[k];
                                assert(self.idle@[k].id != id);
                                assert(m != i);
                                assert(self.in_flight@[m] == self.idle@[k]);
                            }
                        }
                    },
                    Some(j) => {
                        proof {
                            assert(has_record(prev_in_flight, self.idle@[j as int]));
                            let m = choose|m: int|
                                0 <= m < prev_in_flight.len() && prev_in_flight[m]
                                    == self.idle@[j as int];
                            assert(prev_in_flight[m].id == id);
                            assert(m == i) by {
                                if m < i {
                                    assert(prev_in_flight[m].id != prev_in_flight[i as int].id);
                                } else if (i as int) < m {
                                    assert(prev_in_flight[i as int].id != prev_in_flight[m].id);
                                }
                            }
                            assert(self.idle@[j as int] == t);
                        }
                        let ghost prev_idle = self.idle@;
                        let slot2 = vstd::std_specs::vec::vec_index_mut(&mut self.idle, j);
                        *slot2 = t2;
                        proof {
                            assert(self.idle@ == prev_idle.update(j as int, t2));
                            assert forall|k: int, l: int|
                                0 <= k < l < self.idle@.len() implies self.idle@[k].id
                                != self.idle@[l].id by {
                                assert(prev_idle[k].id != prev_idle[l].id);
                            }
                            assert forall|k: int| 0 <= k < self.idle@.len() implies has_record(
                                self.in_flight@,
                                #[trigger] self.idle@[k],
                            ) by {
                                if k == j as int {
                                    assert(self.in_flight@[i as int] == t2);
                                } else {
                                    assert(self.idle@[k] == prev_idle[k]);
                                    assert(has_record(prev_in_flight, self.idle@[k]));
                                    let m = choose|m: int|
                                        0 <= m < prev_in_flight.len() && prev_in_flight[m]
                                            == self.idle@[k];
                                    assert(prev_idle[k].id != prev_idle[j as int].id);
                                    assert(m != i);
                                    assert(self.in_flight@[m] == self.idle@[k]);
                                }
                            }
                            assert forall|k: int| 0 <= k < self.leased@.len() implies !contains_id(
                                self.idle@,
                                #[trigger] self.leased@[k],
                            ) by {
                                assert(!contains_id(prev_idle, self.leased@[k]));
                                assert forall|m: int|
                                    0 <= m < self.idle@.len() implies self.idle@[m].id
                                    != self.leased@[k] by {
                                    assert(prev_idle[m].id != self.leased@[k]);
                                    if m == j as int {
                                        assert(self.idle@[m].id == prev_idle[m].id);
                                    }
                                }
                            }
                        }
                    },
                }
            },
        }
    }

    /// One cycle of the keep-alive loop at clock reading `now`.
    ///
    /// Every tracked instance is inspected: an expired one is marked for
    /// retirement without being pinged; the rest are pinged, a success
    /// erasing the instance's failure count and a failure raising it, with
    /// the instance marked for removal when the count reaches
    /// `max_ping_failures`.  Marked instances then leave both collections
    /// and their counts are erased.  The returned number counts the
    /// instances actually removed: the caller schedules that many
    /// replacement tasks.  Under shutdown the cycle does nothing.
    pub fn keep_alive_cycle<F: Fn(u64) -> bool>(
        &mut self,
        now: u64,
        counts: &mut FailureCounts,
        ping: F,
    ) -> (replaced: usize)
        requires
            old(self).inv(),
            old(counts).wf(),
            forall|id: u64| #[trigger] call_requires(ping, (id,)),
        ensures
            final(self).inv(),
            final(counts).wf(),
            final(self).config == old(self).config,
            final(self).shutting_down == old(self).shutting_down,
            final(self).next_id == old(self).next_id,
            final(self).leased@ == old(self).leased@,
            old(self).shutting_down ==> PoolCore::same_state(*final(self), *old(self)) && final(counts).entries@ == old(counts).entries@ && replaced == 0,
            replaced == old(self).in_flight@.len() - final(self).in_flight@.len(),
            forall|x: u64|
                contains_id(final(self).in_flight@, x) ==> contains_id(old(self).in_flight@, x),
            forall|x: u64| contains_id(final(self).idle@, x) ==> contains_id(old(self).idle@, x),
            forall|j: int|
                0 <= j < final(self).in_flight@.len() ==> id_born_in(
                    old(self).in_flight@,
                    #[trigger] final(self).in_flight@[j],
                ),
            !old(self).shutting_down ==> forall|k: int|
                0 <= k < old(self).in_flight@.len() && spec_expired(
                    #[trigger] old(self).in_flight@[k],
                    old(self).config.browser_ttl,
                    now,
                ) ==> !contains_id(final(self).in_flight@, old(self).in_flight@[k].id)
                    && !contains_id(final(self).idle@, old(self).in_flight@[k].id),
            !old(self).shutting_down ==> forall|k: int|
                0 <= k < old(self).in_flight@.len() && !spec_expired(
                    #[trigger] old(self).in_flight@[k],
                    old(self).config.browser_ttl,
                    now,
                ) && old(counts).count_of(old(self).in_flight@[k].id) + 1 < old(self).config.max_ping_failures ==> contains_id(
                    final(self).in_flight@,
                    old(self).in_flight@[k].id,
                ),
            // a non-expired instance leaves only for cause: its ping failed
            // and its consecutive failures reached the threshold:
            !old(self).shutting_down ==> forall|k: int|
                0 <= k < old(self).in_flight@.len() && !spec_expired(
                    #[trigger] old(self).in_flight@[k],
                    old(self).config.browser_ttl,
                    now,
                ) && !contains_id(final(self).in_flight@, old(self).in_flight@[k].id)
                    ==> call_ensures(ping, (old(self).in_flight@[k].id,), false) && old(counts).count_of(old(self).in_flight@[k].id) + 1 >= old(self).config.max_ping_failures,
            // a non-expired survivor at or over the threshold must have
            // answered a successful ping:
            !old(self).shutting_down ==> forall|k: int|
                0 <= k < old(self).in_flight@.len() && !spec_expired(
                    #[trigger] old(self).in_flight@[k],
                    old(self).config.browser_ttl,
                    now,
                ) && contains_id(final(self).in_flight@, old(self).in_flight@[k].id) && old(counts).count_of(old(self).in_flight@[k].id) + 1 >= old(self).config.max_ping_failures
                    ==> call_ensures(ping, (old(self).in_flight@[k].id,), true),
            // the failure count of every removed instance is erased:
            !old(self).shutting_down ==> forall|k: int|
                0 <= k < old(self).in_flight@.len() && !contains_id(
                    final(self).in_flight@,
                    (#[trigger] old(self).in_flight@[k]).id,
                ) ==> final(counts).count_of(old(self).in_flight@[k].id) == 0,
            // a survivor's count is reset by a successful ping and raised
            // by a failed one that stayed below the threshold:
            !old(self).shutting_down ==> forall|k: int|
                0 <= k < old(self).in_flight@.len() && !spec_expired(
                    #[trigger] old(self).in_flight@[k],
                    old(self).config.browser_ttl,
                    now,
                ) && contains_id(final(self).in_flight@, old(self).in_flight@[k].id) ==> ((
                call_ensures(ping, (old(self).in_flight@[k].id,), true) && final(counts).count_of(
                    old(self).in_flight@[k].id,
                ) == 0) || (call_ensures(ping, (old(self).in_flight@[k].id,), false) && final(counts).count_of(old(self).in_flight@[k].id) == old(counts).count_of(
                    old(self).in_flight@[k].id,
                ) + 1 && old(counts).count_of(old(self).in_flight@[k].id) + 1 < old(self).config.max_ping_failures)),
    {
        if self.shutting_down {
            proof {
                assert forall|j: int| 0 <= j < self.in_flight@.len() implies id_born_in(
                    self.in_flight@,
                    #[trigger] self.in_flight@[j],
                ) by {
                    lemma_id_born_witness(self.in_flight@, self.in_flight@[j], j);
                }
            }
            return 0;
        }
        let ttl = self.config.browser_ttl;
        let max_failures = self.config.max_ping_failures;
        let n = self.in_flight.len();
        let mut expired_ids: Vec<u64> = Vec::new();
        let mut failed_ids: Vec<u64> = Vec::new();
        let mut healthy_ids: Vec<u64> = Vec::new();
        let mut k: usize = 0;
        while k < n
            invariant
                self == old(self),
                !old(self).shutting_down,
                old(self).inv(),
                counts.wf(),
                n == self.in_flight@.len(),
                k <= n,
                ttl == self.config.browser_ttl,
                max_failures == self.config.max_ping_failures,
                forall|id: u64| #[trigger] call_requires(ping, (id,)),
                // counts of instances not yet inspected are untouched:
                forall|j: int|
                    k <= j < n ==> counts.count_of((#[trigger] self.in_flight@[j]).id) == old(counts).count_of(self.in_flight@[j].id),
                // every expired instance inspected so far is marked:
                forall|j: int|
                    0 <= j < k && spec_expired(#[trigger] self.in_flight@[j], ttl, now)
                        ==> expired_ids@.contains(self.in_flight@[j].id),
                // an inspected instance that is not expired and whose count
                // stayed below the threshold is in no removal list:
                forall|j: int|
                    0 <= j < k && !spec_expired(#[trigger] self.in_flight@[j], ttl, now) && old(counts).count_of(self.in_flight@[j].id) + 1 < max_failures ==> !expired_ids@.contains(
                        self.in_flight@[j].id,
                    ) && !failed_ids@.contains(self.in_flight@[j].id),
                // each marked id comes from an inspected instance, an
                // expired one for the expired list:
                ids_name_expired(expired_ids@, self.in_flight@, k as int, ttl, now),
                forall|m: int|
                    0 <= m < failed_ids@.len() ==> exists|j: int|
                        0 <= j < k && (#[trigger] failed_ids@[m]) == self.in_flight@[j].id,
                // each id marked failed was pinged unhealthy at the threshold:
                forall|m: int|
                    0 <= m < failed_ids@.len() ==> call_ensures(
                        ping,
                        ((#[trigger] failed_ids@[m]),),
                        false,
                    ) && old(counts).count_of(failed_ids@[m]) + 1 >= max_failures,
                // inspected non-expired entries have their ping outcome on
                // record, in the counts and the failed list:
                forall|j: int|
                    0 <= j < k && !spec_expired(#[trigger] self.in_flight@[j], ttl, now) ==> ((
                    call_ensures(ping, (self.in_flight@[j].id,), true) && counts.count_of(
                        self.in_flight@[j].id,
                    ) == 0 && !failed_ids@.contains(self.in_flight@[j].id)) || (call_ensures(
                        ping,
                        (self.in_flight@[j].id,),
                        false,
                    ) && counts.count_of(self.in_flight@[j].id) == (
                    if old(counts).count_of(self.in_flight@[j].id) < u32::MAX as int {
                        old(counts).count_of(self.in_flight@[j].id) + 1
                    } else {
                        u32::MAX as int
                    }) && (failed_ids@.contains(self.in_flight@[j].id) <==> old(counts).count_of(
                        self.in_flight@[j].id,
                    ) + 1 >= max_failures))),
                // inspected expired entries keep their counts for now:
                forall|j: int|
                    0 <= j < k && spec_expired(#[trigger] self.in_flight@[j], ttl, now)
                        ==> counts.count_of(self.in_flight@[j].id) == old(counts).count_of(
                        self.in_flight@[j].id,
                    ),
            decreases n - k,
        {
            let t = self.in_flight[k];
            let ghost counts_pre = *counts;
            let ghost expired_pre = expired_ids@;
            let ghost failed_pre = failed_ids@;
            if t.is_expired(ttl, now) {
                expired_ids.push(t.id);
            } else {
                if ping(t.id) {
                    counts.clear(t.id);
                    healthy_ids.push(t.id);
                } else {
                    let f = counts.record_failure(t.id);
                    if f >= max_failures {
                        failed_ids.push(t.id);
                    }
                }
            }
            proof {
                assert forall|j: int|
                    k + 1 <= j < n implies counts.count_of((#[trigger] self.in_flight@[j]).id)
                    == old(counts).count_of(self.in_flight@[j].id) by {
                    assert(self.in_flight@[j].id != t.id) by {
                        assert(self.in_flight@[k as int].id == t.id);
                    }
                    assert(counts.count_of(self.in_flight@[j].id) == counts_pre.count_of(
                        self.in_flight@[j].id,
                    ));
                }
                assert forall|j: int|
                    0 <= j < k + 1 && spec_expired(#[trigger] self.in_flight@[j], ttl, now)
                        implies expired_ids@.contains(self.in_flight@[j].id) by {
                    if j < k {
                        assert(expired_pre.contains(self.in_flight@[j].id));
                        assert(expired_pre.is_prefix_of(expired_ids@));
                        let m = choose|m: int|
                            0 <= m < expired_pre.len() && expired_pre[m] == self.in_flight@[j].id;
                        assert(expired_ids@[m] == self.in_flight@[j].id);
                    } else {
                        assert(expired_ids@[expired_ids@.len() - 1] == t.id);
                    }
                }
                assert forall|j: int|
                    0 <= j < k + 1 && !spec_expired(#[trigger] self.in_flight@[j], ttl, now)
                        && old(counts).count_of(self.in_flight@[j].id) + 1 < max_failures implies
                    !expired_ids@.contains(self.in_flight@[j].id) && !failed_ids@.contains(
                        self.in_flight@[j].id,
                    ) by {
                    if j < k {
                        assert(self.in_flight@[j].id != t.id) by {
                            assert(self.in_flight@[j].id != self.in_flight@[k as int].id);
                        }
                        assert(!expired_pre.contains(self.in_flight@[j].id));
                        assert(!failed_pre.contains(self.in_flight@[j].id));
                        assert forall|m: int|
                            0 <= m < expired_ids@.len() implies expired_ids@[m]
                            != self.in_flight@[j].id by {
                            if m < expired_pre.len() {
                                assert(expired_ids@[m] == expired_pre[m]);
                            } else {
                                assert(expired_ids@[m] == t.id);
                            }
                        }
                        assert forall|m: int|
                            0 <= m < failed_ids@.len() implies failed_ids@[m]
                            != self.in_flight@[j].id by {
                            if m < failed_pre.len() {
                                assert(failed_ids@[m] == failed_pre[m]);
                            } else {
                                assert(failed_ids@[m] == t.id);
                            }
                        }
                    } else {
                        assert(counts_pre.count_of(t.id) == old(counts).count_of(t.id));
                        assert(expired_ids@ == expired_pre);
                        assert forall|m: int|
                            0 <= m < expired_ids@.len() implies expired_ids@[m] != t.id by {
                            assert(expired_ids@[m] == expired_pre[m]);
                            assert(names_expired(expired_pre[m], self.in_flight@, k as int, ttl, now));
                            let j2 = choose|j2: int|
                                0 <= j2 < k && expired_pre[m] == (#[trigger] self.in_flight@[j2]).id
                                    && spec_expired(self.in_flight@[j2], ttl, now);
                            assert(self.in_flight@[j2].id != self.in_flight@[k as int].id);
                        }
                        assert forall|m: int|
                            0 <= m < failed_ids@.len() implies failed_ids@[m] != t.id by {
                            if m < failed_pre.len() {
                                assert(failed_ids@[m] == failed_pre[m]);
                                let j2 = choose|j2: int|
                                    0 <= j2 < k && failed_pre[m] == self.in_flight@[j2].id;
                                assert(self.in_flight@[j2].id != self.in_flight@[k as int].id);
                            } else {
                                assert(old(counts).count_of(t.id) + 1 < max_failures);
                            }
                        }
                    }
                }
                assert forall|m: int| 0 <= m < expired_ids@.len() implies #[trigger] names_expired(
                    expired_ids@[m],
                    self.in_flight@,
                    k as int + 1,
                    ttl,
                    now,
                ) by {
                    if m < expired_pre.len() {
                        assert(expired_ids@[m] == expired_pre[m]);
                        assert(names_expired(expired_pre[m], self.in_flight@, k as int, ttl, now));
                        lemma_names_expired_widen(
                            expired_pre[m],
                            self.in_flight@,
                            k as int,
                            k as int + 1,
                            ttl,
                            now,
                        );
                    } else {
                        assert(expired_ids@[m] == t.id);
                        assert(expired_ids@[m] == self.in_flight@[k as int].id);
                        assert(spec_expired(self.in_flight@[k as int], ttl, now));
                        lemma_names_expired_witness(
                            expired_ids@[m],
                            self.in_flight@,
                            k as int + 1,
                            ttl,
                            now,
                            k as int,
                        );
                    }
                }
                assert forall|m: int|
                    0 <= m < failed_ids@.len() implies exists|j: int|
                        0 <= j < k + 1 && (#[trigger] failed_ids@[m]) == self.in_flight@[j].id by {
                    if m < failed_pre.len() {
                        assert(failed_ids@[m] == failed_pre[m]);
                        let j2 = choose|j2: int|
                            0 <= j2 < k && failed_pre[m] == self.in_flight@[j2].id;
                        assert(failed_ids@[m] == self.in_flight@[j2].id);
                    } else {
                        assert(failed_ids@[m] == t.id);
                        assert(failed_ids@[m] == self.in_flight@[k as int].id);
                    }
                }
                assert(!failed_pre.contains(t.id)) by {
                    if failed_pre.contains(t.id) {
                        let m = choose|m: int|
                            0 <= m < failed_pre.len() && failed_pre[m] == t.id;
                        let j2 = choose|j2: int|
                            0 <= j2 < k && failed_pre[m] == self.in_flight@[j2].id;
                        assert(self.in_flight@[j2].id != self.in_flight@[k as int].id);
                    }
                }
                assert(counts_pre.count_of(t.id) == old(counts).count_of(t.id));
                assert forall|m: int|
                    0 <= m < failed_ids@.len() implies call_ensures(
                        ping,
                        ((#[trigger] failed_ids@[m]),),
                        false,
                    ) && old(counts).count_of(failed_ids@[m]) + 1 >= max_failures by {
                    if m < failed_pre.len() {
                        assert(failed_ids@[m] == failed_pre[m]);
                    } else {
                        assert(failed_ids@[m] == t.id);
                    }
                }
                assert forall|j: int|
                    0 <= j < k + 1 && !spec_expired(#[trigger] self.in_flight@[j], ttl, now)
                        implies ((call_ensures(ping, (self.in_flight@[j].id,), true)
                        && counts.count_of(self.in_flight@[j].id) == 0 && !failed_ids@.contains(
                        self.in_flight@[j].id,
                    )) || (call_ensures(ping, (self.in_flight@[j].id,), false)
                        && counts.count_of(self.in_flight@[j].id) == (
                        if old(counts).count_of(self.in_flight@[j].id) < u32::MAX as int {
                            old(counts).count_of(self.in_flight@[j].id) + 1
                        } else {
                            u32::MAX as int
                        }) && (failed_ids@.contains(self.in_flight@[j].id) <==> old(counts).count_of(self.in_flight@[j].id) + 1 >= max_failures))) by {
                    let idj = self.in_flight@[j].id;
                    if j < k {
                        assert(idj != t.id) by {
                            assert(self.in_flight@[j].id != self.in_flight@[k as int].id);
                        }
                        assert(counts.count_of(idj) == counts_pre.count_of(idj));
                        assert(failed_ids@.contains(idj) <==> failed_pre.contains(idj)) by {
                            if failed_ids@.contains(idj) {
                                let m = choose|m: int|
                                    0 <= m < failed_ids@.len() && failed_ids@[m] == idj;
                                if m < failed_pre.len() {
                                    assert(failed_pre[m] == idj);
                                } else {
                                    assert(failed_ids@[m] == t.id);
                                }
                            }
                            if failed_pre.contains(idj) {
                                let m = choose|m: int|
                                    0 <= m < failed_pre.len() && failed_pre[m] == idj;
                                assert(failed_ids@[m] == idj);
                            }
                        }
                    } else {
                        assert(failed_ids@.contains(t.id) <==> failed_ids@.len()
                            > failed_pre.len()) by {
                            if failed_ids@.contains(t.id) {
                                let m = choose|m: int|
                                    0 <= m < failed_ids@.len() && failed_ids@[m] == t.id;
                                if m < failed_pre.len() {
                                    assert(failed_pre[m] == t.id);
                                }
                            }
                            if failed_ids@.len() > failed_pre.len() {
                                assert(failed_ids@[failed_ids@.len() - 1] == t.id);
                            }
                        }
                    }
                }
                assert forall|j: int|
                    0 <= j < k + 1 && spec_expired(#[trigger] self.in_flight@[j], ttl, now)
                        implies counts.count_of(self.in_flight@[j].id) == old(counts).count_of(
                        self.in_flight@[j].id,
                    ) by {
                    if j < k {
                        assert(self.in_flight@[j].id != t.id) by {
                            assert(self.in_flight@[j].id != self.in_flight@[k as int].id);
                        }
                        assert(counts.count_of(self.in_flight@[j].id) == counts_pre.count_of(
                            self.in_flight@[j].id,
                        ));
                    }
                }
            }
            k = k + 1;
        }
        let mut replaced: usize = 0;
        let ghost phase1 = *self;
        let ghost counts_p1 = *counts;
        proof {
            // carry the inspection record over to the entry state, which
            // phase one left untouched
            assert forall|j: int|
                0 <= j < old(self).in_flight@.len() && !spec_expired(
                    #[trigger] old(self).in_flight@[j],
                    ttl,
                    now,
                ) implies ((call_ensures(ping, (old(self).in_flight@[j].id,), true)
                && counts_p1.count_of(old(self).in_flight@[j].id) == 0 && !failed_ids@.contains(
                old(self).in_flight@[j].id,
            )) || (call_ensures(ping, (old(self).in_flight@[j].id,), false)
                && counts_p1.count_of(old(self).in_flight@[j].id) == (
                if old(counts).count_of(old(self).in_flight@[j].id) < u32::MAX as int {
                    old(counts).count_of(old(self).in_flight@[j].id) + 1
                } else {
                    u32::MAX as int
                }) && (failed_ids@.contains(old(self).in_flight@[j].id) <==> old(counts).count_of(
                old(self).in_flight@[j].id,
            ) + 1 >= max_failures))) by {
                assert(old(self).in_flight@[j] == self.in_flight@[j]);
            }
            assert(k == n);
            assert(old(self).in_flight@ == self.in_flight@);
            assert(ids_name_expired(
                expired_ids@,
                old(self).in_flight@,
                old(self).in_flight@.len() as int,
                ttl,
                now,
            ));
        }
        let mut a: usize = 0;
        while a < expired_ids.len()
            invariant
                self.inv(),
                counts.wf(),
                counts_p1.wf(),
                forall|x: u64|
                    !expired_ids@.contains(x) && !failed_ids@.contains(x) ==> counts.count_of(x)
                        == counts_p1.count_of(x),
                forall|c: int| 0 <= c < a ==> counts.count_of(#[trigger] expired_ids@[c]) == 0,
                a <= expired_ids@.len(),
                self.config == old(self).config,
                self.shutting_down == old(self).shutting_down,
                self.next_id == old(self).next_id,
                self.leased@ == old(self).leased@,
                phase1 == *old(self),
                n == old(self).in_flight@.len(),
                replaced == old(self).in_flight@.len() - self.in_flight@.len(),
                replaced <= n,
                forall|x: u64| contains_id(self.in_flight@, x) ==> contains_id(
                    old(self).in_flight@,
                    x,
                ),
                forall|x: u64| contains_id(self.idle@, x) ==> contains_id(old(self).idle@, x),
                forall|j: int|
                    0 <= j < self.in_flight@.len() ==> has_record(
                        old(self).in_flight@,
                        #[trigger] self.in_flight@[j],
                    ),
                // ids handled so far are gone from both collections:
                forall|b: int|
                    0 <= b < a ==> !contains_id(self.in_flight@, #[trigger] expired_ids@[b])
                        && !contains_id(self.idle@, expired_ids@[b]),
                // ids in no removal list survive:
                forall|x: u64|
                    contains_id(old(self).in_flight@, x) && !expired_ids@.contains(x)
                        && !failed_ids@.contains(x) ==> contains_id(self.in_flight@, x),
            decreases expired_ids@.len() - a,
        {
            let id = expired_ids[a];
            let _ = remove_by_id(&mut self.idle, id);
            if remove_by_id(&mut self.in_flight, id) {
                proof {
                    assert(replaced < n);
                }
                replaced = replaced + 1;
            }
            let ghost counts_before = *counts;
            counts.clear(id);
            proof {
                assert(expired_ids@.contains(expired_ids@[a as int]));
                assert forall|x: u64|
                    !expired_ids@.contains(x) && !failed_ids@.contains(x) implies counts.count_of(
                    x,
                ) == counts_p1.count_of(x) by {
                    assert(x != id);
                    assert(counts.count_of(x) == counts_before.count_of(x));
                }
                assert forall|c: int| 0 <= c < a + 1 implies counts.count_of(
                    #[trigger] expired_ids@[c],
                ) == 0 by {
                    if expired_ids@[c] != id {
                        assert(counts.count_of(expired_ids@[c]) == counts_before.count_of(
                            expired_ids@[c],
                        ));
                    }
                }
            }
            a = a + 1;
        }
        let mut b: usize = 0;
        while b < failed_ids.len()
            invariant
                self.inv(),
                counts.wf(),
                counts_p1.wf(),
                forall|x: u64|
                    !expired_ids@.contains(x) && !failed_ids@.contains(x) ==> counts.count_of(x)
                        == counts_p1.count_of(x),
                forall|c: int|
                    0 <= c < expired_ids@.len() ==> counts.count_of(#[trigger] expired_ids@[c])
                        == 0,
                forall|c: int| 0 <= c < b ==> counts.count_of(#[trigger] failed_ids@[c]) == 0,
                b <= failed_ids@.len(),
                self.config == old(self).config,
                self.shutting_down == old(self).shutting_down,
                self.next_id == old(self).next_id,
                self.leased@ == old(self).leased@,
                n == old(self).in_flight@.len(),
                replaced == old(self).in_flight@.len() - self.in_flight@.len(),
                replaced <= n,
                forall|x: u64| contains_id(self.in_flight@, x) ==> contains_id(
                    old(self).in_flight@,
                    x,
                ),
                forall|x: u64| contains_id(self.idle@, x) ==> contains_id(old(self).idle@, x),
                forall|j: int|
                    0 <= j < self.in_flight@.len() ==> has_record(
                        old(self).in_flight@,
                        #[trigger] self.in_flight@[j],
                    ),
                forall|c: int|
                    0 <= c < expired_ids@.len() ==> !contains_id(
                        self.in_flight@,
                        #[trigger] expired_ids@[c],
                    ) && !contains_id(self.idle@, expired_ids@[c]),
                forall|c: int|
                    0 <= c < b ==> !contains_id(self.in_flight@, #[trigger] failed_ids@[c])
                        && !contains_id(self.idle@, failed_ids@[c]),
                forall|x: u64|
                    contains_id(old(self).in_flight@, x) && !expired_ids@.contains(x)
                        && !failed_ids@.contains(x) ==> contains_id(self.in_flight@, x),
            decreases failed_ids@.len() - b,
        {
            let id = failed_ids[b];
            let _ = remove_by_id(&mut self.idle, id);
            if remove_by_id(&mut self.in_flight, id) {
                proof {
                    assert(replaced < n);
                }
                replaced = replaced + 1;
            }
            let ghost counts_before = *counts;
            counts.clear(id);
            proof {
                assert(failed_ids@.contains(failed_ids@[b as int]));
                assert forall|x: u64|
                    !expired_ids@.contains(x) && !failed_ids@.contains(x) implies counts.count_of(
                    x,
                ) == counts_p1.count_of(x) by {
                    assert(x != id);
                    assert(counts.count_of(x) == counts_before.count_of(x));
                }
                assert forall|c: int| 0 <= c < expired_ids@.len() implies counts.count_of(
                    #[trigger] expired_ids@[c],
                ) == 0 by {
                    if expired_ids@[c] != id {
                        assert(counts.count_of(expired_ids@[c]) == counts_before.count_of(
                            expired_ids@[c],
                        ));
                    }
                }
                assert forall|c: int| 0 <= c < b + 1 implies counts.count_of(
                    #[trigger] failed_ids@[c],
                ) == 0 by {
                    if failed_ids@[c] != id {
                        assert(counts.count_of(failed_ids@[c]) == counts_before.count_of(
                            failed_ids@[c],
                        ));
                    }
                }
            }
            b = b + 1;
        }
        let mut h: usize = 0;
        let ghost phase2 = *self;
        let ghost counts_p2 = *counts;
        while h < healthy_ids.len()
            invariant
                self.inv(),
                counts.wf(),
                counts.entries@ == counts_p2.entries@,
                h <= healthy_ids@.len(),
                self.config == old(self).config,
                self.shutting_down == old(self).shutting_down,
                self.next_id == old(self).next_id,
                self.leased@ == old(self).leased@,
                self.in_flight@.len() == phase2.in_flight@.len(),
                self.idle@.len() == phase2.idle@.len(),
                forall|j: int|
                    0 <= j < self.in_flight@.len() ==> (#[trigger] self.in_flight@[j]).id
                        == phase2.in_flight@[j].id && self.in_flight@[j].created_at
                        == phase2.in_flight@[j].created_at,
                forall|j: int|
                    0 <= j < self.idle@.len() ==> (#[trigger] self.idle@[j]).id
                        == phase2.idle@[j].id && self.idle@[j].created_at
                        == phase2.idle@[j].created_at,
            decreases healthy_ids@.len() - h,
        {
            let id = healthy_ids[h];
            let ghost before = *self;
            self.touch(id, now);
            proof {
                assert forall|j: int|
                    0 <= j < self.in_flight@.len() implies (#[trigger] self.in_flight@[j]).id
                    == phase2.in_flight@[j].id && self.in_flight@[j].created_at
                    == phase2.in_flight@[j].created_at by {
                    assert(self.in_flight@[j].id == before.in_flight@[j].id);
                    assert(self.in_flight@[j].created_at == before.in_flight@[j].created_at);
                }
                assert forall|j: int|
                    0 <= j < self.idle@.len() implies (#[trigger] self.idle@[j]).id
                    == phase2.idle@[j].id && self.idle@[j].created_at
                    == phase2.idle@[j].created_at by {
                    assert(self.idle@[j].id == before.idle@[j].id);
                    assert(self.idle@[j].created_at == before.idle@[j].created_at);
                }
            }
            h = h + 1;
        }
        proof {
            assert forall|x: u64| contains_id(self.in_flight@, x) implies contains_id(
                phase2.in_flight@,
                x,
            ) by {
                let j = choose|j: int| 0 <= j < self.in_flight@.len() && self.in_flight@[j].id == x;
                assert(phase2.in_flight@[j].id == x);
            }
            assert forall|x: u64| contains_id(phase2.in_flight@, x) implies contains_id(
                self.in_flight@,
                x,
            ) by {
                let j = choose|j: int|
                    0 <= j < phase2.in_flight@.len() && phase2.in_flight@[j].id == x;
                assert(self.in_flight@[j].id == x);
            }
            assert forall|x: u64| contains_id(self.idle@, x) implies contains_id(
                phase2.idle@,
                x,
            ) by {
                let j = choose|j: int| 0 <= j < self.idle@.len() && self.idle@[j].id == x;
                assert(phase2.idle@[j].id == x);
            }
            assert forall|x: u64| contains_id(phase2.idle@, x) implies contains_id(
                self.idle@,
                x,
            ) by {
                let j = choose|j: int| 0 <= j < phase2.idle@.len() && phase2.idle@[j].id == x;
                assert(self.idle@[j].id == x);
            }
            assert forall|j: int|
                0 <= j < self.in_flight@.len() implies id_born_in(
                    old(self).in_flight@,
                    #[trigger] self.in_flight@[j],
                ) by {
                assert(has_record(old(self).in_flight@, phase2.in_flight@[j]));
                let k2 = choose|k2: int|
                    0 <= k2 < old(self).in_flight@.len() && old(self).in_flight@[k2]
                        == phase2.in_flight@[j];
                lemma_id_born_witness(old(self).in_flight@, self.in_flight@[j], k2);
            }
            assert forall|k2: int|
                0 <= k2 < old(self).in_flight@.len() && spec_expired(
                    #[trigger] old(self).in_flight@[k2],
                    old(self).config.browser_ttl,
                    now,
                ) implies !contains_id(self.in_flight@, old(self).in_flight@[k2].id)
                && !contains_id(self.idle@, old(self).in_flight@[k2].id) by {
                assert(expired_ids@.contains(old(self).in_flight@[k2].id));
                let m = choose|m: int|
                    0 <= m < expired_ids@.len() && expired_ids@[m] == old(self).in_flight@[k2].id;
                assert(!contains_id(phase2.in_flight@, expired_ids@[m]));
                assert(!contains_id(phase2.idle@, expired_ids@[m]));
            }
            assert forall|k2: int|
                0 <= k2 < old(self).in_flight@.len() && !spec_expired(
                    #[trigger] old(self).in_flight@[k2],
                    old(self).config.browser_ttl,
                    now,
                ) && old(counts).count_of(old(self).in_flight@[k2].id) + 1 < old(self).config.max_ping_failures implies contains_id(
                    self.in_flight@,
                    old(self).in_flight@[k2].id,
                ) by {
                let x = old(self).in_flight@[k2].id;
                assert(contains_id(old(self).in_flight@, x));
                assert(!expired_ids@.contains(x) && !failed_ids@.contains(x));
                assert(contains_id(phase2.in_flight@, x));
            }
            // a removed non-expired instance was pinged unhealthy at the
            // failure threshold
            assert forall|k2: int|
                0 <= k2 < old(self).in_flight@.len() && !spec_expired(
                    #[trigger] old(self).in_flight@[k2],
                    old(self).config.browser_ttl,
                    now,
                ) && !contains_id(self.in_flight@, old(self).in_flight@[k2].id) implies
                call_ensures(ping, (old(self).in_flight@[k2].id,), false) && old(counts).count_of(
                old(self).in_flight@[k2].id,
            ) + 1 >= old(self).config.max_ping_failures by {
                let x = old(self).in_flight@[k2].id;
                assert(contains_id(old(self).in_flight@, x));
                assert(!contains_id(phase2.in_flight@, x));
                assert(expired_ids@.contains(x) || failed_ids@.contains(x)) by {
                    if !expired_ids@.contains(x) && !failed_ids@.contains(x) {
                        assert(contains_id(phase2.in_flight@, x));
                    }
                }
                assert(!expired_ids@.contains(x)) by {
                    if expired_ids@.contains(x) {
                        let m = choose|m: int| 0 <= m < expired_ids@.len() && expired_ids@[m] == x;
                        assert(names_expired(
                            expired_ids@[m],
                            old(self).in_flight@,
                            old(self).in_flight@.len() as int,
                            ttl,
                            now,
                        ));
                        let j2 = choose|j2: int|
                            0 <= j2 < old(self).in_flight@.len() && expired_ids@[m] == (
                            #[trigger] old(self).in_flight@[j2]).id && spec_expired(old(self).in_flight@[j2], ttl, now);
                        assert(j2 == k2) by {
                            if j2 < k2 {
                                assert(old(self).in_flight@[j2].id != old(self).in_flight@[k2].id);
                            } else if k2 < j2 {
                                assert(old(self).in_flight@[k2].id != old(self).in_flight@[j2].id);
                            }
                        }
                    }
                }
                let m2 = choose|m2: int| 0 <= m2 < failed_ids@.len() && failed_ids@[m2] == x;
                assert(call_ensures(ping, (failed_ids@[m2],), false));
                assert(old(counts).count_of(failed_ids@[m2]) + 1 >= max_failures);
            }
            // a surviving non-expired instance at or over the threshold
            // answered a successful ping
            assert forall|k2: int|
                0 <= k2 < old(self).in_flight@.len() && !spec_expired(
                    #[trigger] old(self).in_flight@[k2],
                    old(self).config.browser_ttl,
                    now,
                ) && contains_id(self.in_flight@, old(self).in_flight@[k2].id) && old(counts).count_of(old(self).in_flight@[k2].id) + 1 >= old(self).config.max_ping_failures
                implies call_ensures(ping, (old(self).in_flight@[k2].id,), true) by {
                let x = old(self).in_flight@[k2].id;
                assert(contains_id(phase2.in_flight@, x));
                assert(!failed_ids@.contains(x)) by {
                    if failed_ids@.contains(x) {
                        let m = choose|m: int| 0 <= m < failed_ids@.len() && failed_ids@[m] == x;
                        assert(!contains_id(phase2.in_flight@, failed_ids@[m]));
                    }
                }
                if !(call_ensures(ping, (x,), true) && counts_p1.count_of(x) == 0
                    && !failed_ids@.contains(x)) {
                    assert(call_ensures(ping, (x,), false) && (failed_ids@.contains(x) <==> old(counts).count_of(x) + 1 >= max_failures));
                    assert(failed_ids@.contains(x));
                }
            }
            // the counts of removed instances are erased
            assert forall|k2: int|
                0 <= k2 < old(self).in_flight@.len() && !contains_id(
                    self.in_flight@,
                    (#[trigger] old(self).in_flight@[k2]).id,
                ) implies counts.count_of(old(self).in_flight@[k2].id) == 0 by {
                let x = old(self).in_flight@[k2].id;
                assert(contains_id(old(self).in_flight@, x));
                assert(!contains_id(phase2.in_flight@, x));
                assert(expired_ids@.contains(x) || failed_ids@.contains(x)) by {
                    if !expired_ids@.contains(x) && !failed_ids@.contains(x) {
                        assert(contains_id(phase2.in_flight@, x));
                    }
                }
                assert(counts.count_of(x) == counts_p2.count_of(x));
                if expired_ids@.contains(x) {
                    let m = choose|m: int| 0 <= m < expired_ids@.len() && expired_ids@[m] == x;
                    assert(counts_p2.count_of(expired_ids@[m]) == 0);
                } else {
                    let m = choose|m: int| 0 <= m < failed_ids@.len() && failed_ids@[m] == x;
                    assert(counts_p2.count_of(failed_ids@[m]) == 0);
                }
            }
            // a survivor's count: reset on a success, one more on a failure
            assert forall|k2: int|
                0 <= k2 < old(self).in_flight@.len() && !spec_expired(
                    #[trigger] old(self).in_flight@[k2],
                    old(self).config.browser_ttl,
                    now,
                ) && contains_id(self.in_flight@, old(self).in_flight@[k2].id) implies ((
                call_ensures(ping, (old(self).in_flight@[k2].id,), true) && counts.count_of(
                    old(self).in_flight@[k2].id,
                ) == 0) || (call_ensures(ping, (old(self).in_flight@[k2].id,), false)
                && counts.count_of(old(self).in_flight@[k2].id) == old(counts).count_of(
                    old(self).in_flight@[k2].id,
                ) + 1 && old(counts).count_of(old(self).in_flight@[k2].id) + 1 < old(self).config.max_ping_failures)) by {
                let x = old(self).in_flight@[k2].id;
                assert(contains_id(phase2.in_flight@, x));
                assert(!failed_ids@.contains(x)) by {
                    if failed_ids@.contains(x) {
                        let m = choose|m: int| 0 <= m < failed_ids@.len() && failed_ids@[m] == x;
                        assert(!contains_id(phase2.in_flight@, failed_ids@[m]));
                    }
                }
                assert(!expired_ids@.contains(x)) by {
                    if expired_ids@.contains(x) {
                        let m = choose|m: int| 0 <= m < expired_ids@.len() && expired_ids@[m] == x;
                        assert(!contains_id(phase2.in_flight@, expired_ids@[m]));
                    }
                }
                assert(counts.count_of(x) == counts_p2.count_of(x));
                assert(counts_p2.count_of(x) == counts_p1.count_of(x));
                if !(call_ensures(ping, (x,), true) && counts_p1.count_of(x) == 0
                    && !failed_ids@.contains(x)) {
                    assert(call_ensures(ping, (x,), false));
                    assert(failed_ids@.contains(x) <==> old(counts).count_of(x) + 1
                        >= max_failures);
                    assert(old(counts).count_of(x) + 1 < max_failures);
                    assert(old(counts).count_of(x) < u32::MAX as int);
                    assert(counts_p1.count_of(x) == old(counts).count_of(x) + 1);
                }
            }
        }
        replaced
    }
}

/// A concrete index is a witness that `s` holds a record with `t`'s
/// identity and birth time.
proof fn lemma_id_born_witness(s: Seq<TrackedBrowser>, t: TrackedBrowser, k: int)
    requires
        0 <= k < s.len(),
        s[k].id == t.id,
        s[k].created_at == t.created_at,
    ensures
        id_born_in(s, t),
{
    assert(0 <= k < s.len() && s[k].id == t.id && s[k].created_at == t.created_at);
}

/// Shutting down is idempotent: a second `shutdown` leaves the state that
/// the first one produced.
pub proof fn lemma_shutdown_idempotent(s: PoolCore)
    ensures
        PoolCore::with_shutdown(PoolCore::with_shutdown(s)) == PoolCore::with_shutdown(s),
{
}

/// Shutting down preserves the pool invariant.
pub proof fn lemma_shutdown_preserves_inv(s: PoolCore)
    requires
        s.inv(),
    ensures
        PoolCore::with_shutdown(s).inv(),
{
}

/// With a TTL no longer than the grace margin — a zero TTL in particular —
/// no instance can meet the hand-out condition of `acquire`
/// (`age + GRACE_PERIOD_MS <= browser_ttl`): every successful acquire is
/// then served by a fresh creation, and the keep-alive loop retires each
/// instance on the first cycle that sees it aged.
pub proof fn lemma_grace_blocks_small_ttl(t: TrackedBrowser, now: u64, ttl: u64)
    requires
        ttl <= GRACE_PERIOD_MS,
        ttl < GRACE_PERIOD_MS || spec_age(t, now) > 0,
    ensures
        !(spec_age(t, now) + GRACE_PERIOD_MS <= ttl),
{
}

} // verus!
