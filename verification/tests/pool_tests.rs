//! Scenario tests of the pool core's lifecycle decisions.

use html2pdf_api::AcquireOutcome;
use html2pdf_api::BrowserPoolConfigBuilder;
use html2pdf_api::FailureCounts;
use html2pdf_api::PoolCore;
use html2pdf_api::ReleaseOutcome;

fn pool(max: usize, warmup: usize, ttl_ms: u64, max_fail: u32) -> PoolCore {
    let config = BrowserPoolConfigBuilder::new()
        .max_pool_size(max)
        .warmup_count(warmup)
        .browser_ttl(ttl_ms)
        .max_ping_failures(max_fail)
        .build()
        .unwrap();
    PoolCore::new(config)
}

/// Happy path: an empty pool serves by creating, a returned instance is
/// reused, and the same id comes back.
#[test]
fn test_happy_path_reuse() {
    let mut p = pool(3, 0, 60_000, 3);
    let s = p.stats();
    assert_eq!((s.available, s.active, s.total), (0, 0, 0));

    // acquire on the empty pool asks for exactly one creation
    assert_eq!(p.acquire(0, |_id| true), AcquireOutcome::NeedsCreate);
    let t = p.admit_leased(0).unwrap();
    let s = p.stats();
    assert_eq!((s.available, s.active, s.total), (0, 1, 1));

    // drop the lease: back to idle
    assert_eq!(p.release(t.id(), 1_000), ReleaseOutcome::Returned);
    let s = p.stats();
    assert_eq!((s.available, s.active, s.total), (1, 1, 1));

    // acquire again: the same instance comes back
    match p.acquire(2_000, |_id| true) {
        AcquireOutcome::Leased(t2) => assert_eq!(t2.id(), t.id()),
        other => panic!("expected a lease, got {:?}", other),
    }
    let s = p.stats();
    assert_eq!((s.available, s.active, s.total), (0, 1, 1));
}

/// An acquire on an empty pool leads to exactly one admission and one
/// live lease.
#[test]
fn test_acquire_empty_single_creation() {
    let mut p = pool(4, 0, 60_000, 3);
    assert_eq!(p.acquire(0, |_id| true), AcquireOutcome::NeedsCreate);
    let _t = p.admit_leased(0).unwrap();
    assert_eq!(p.leased_count(), 1);
    assert_eq!(p.stats().active, 1);
}

/// Warmup with a zero count is a no-op that succeeds: the report is
/// empty and nothing is admitted.
#[test]
fn test_warmup_zero_is_noop() {
    let mut p = pool(3, 0, 60_000, 3);
    let created = p.warmup(&vec![]);
    assert_eq!(created, 0);
    let s = p.stats();
    assert_eq!((s.available, s.active), (0, 0));
}

/// Warmup fills the idle pool with staggered birth times, and failures
/// are tolerated without aborting the phase.
#[test]
fn test_warmup_staggered_and_partial() {
    let mut p = pool(3, 3, 3_600_000, 3);
    // the middle creation failed; the phase went on
    let created = p.warmup(&vec![Some(0), None, Some(60_000)]);
    assert_eq!(created, 2);
    let s = p.stats();
    assert_eq!((s.available, s.active), (2, 2));
}

/// TTL replacement: warmed-up instances are retired by the keep-alive
/// cycle once expired, and replacements restore the pool with new ids.
#[test]
fn test_replacement_on_ttl() {
    let mut p = pool(2, 2, 1_000, 3);
    let created = p.warmup(&vec![Some(0), Some(1)]); // born at 0 ms and 1 ms
    assert_eq!(created, 2);
    assert_eq!(p.stats().available, 2);

    let mut counts = FailureCounts::new();
    // two seconds later both have outlived their second of TTL
    let replaced = p.keep_alive_cycle(2_000, &mut counts, |_id| true);
    assert_eq!(replaced, 2);
    let s = p.stats();
    assert_eq!((s.available, s.active), (0, 0));

    // the scheduled replacements bring the pool back to capacity
    let a = p.admit_replacement(2_100).unwrap();
    let b = p.admit_replacement(2_200).unwrap();
    assert!(a.id() > 1 && b.id() > 1, "replacements carry fresh ids");
    let s = p.stats();
    assert_eq!((s.available, s.active), (2, 2));
}

/// Grace-period skip: an instance within the margin of its TTL is not
/// handed out, stays tracked for the keep-alive loop, and is retired on
/// the next cycle.
#[test]
fn test_grace_period_skip() {
    let mut p = pool(1, 0, 60_000, 3);
    // seed one idle instance born at 0
    let seeded = p.admit_replacement(0).unwrap();
    assert_eq!(p.stats().available, 1);

    // at 35 s its age plus the 30 s margin exceeds the 60 s TTL: skipped
    assert_eq!(p.acquire(35_000, |_id| true), AcquireOutcome::NeedsCreate);
    let s = p.stats();
    assert_eq!(
        (s.available, s.active),
        (0, 1),
        "the skipped instance stays tracked in in-flight"
    );

    // the caller creates a fresh instance instead
    let fresh = p.admit_leased(35_000).unwrap();
    assert_ne!(fresh.id(), seeded.id());
    assert_eq!(p.stats().active, 2);

    // one keep-alive cycle after the seeded instance expires retires it
    let mut counts = FailureCounts::new();
    let replaced = p.keep_alive_cycle(61_000, &mut counts, |_id| true);
    assert_eq!(replaced, 1);
    let s = p.stats();
    assert_eq!((s.available, s.active), (0, 1));
}

/// An unhealthy instance is retired after `max_ping_failures` consecutive
/// failed pings, and a replacement restores the pool.
#[test]
fn test_unhealthy_instance_replaced() {
    let mut p = pool(1, 0, 3_600_000, 2);
    let _seeded = p.admit_replacement(0).unwrap();
    assert_eq!(p.stats().active, 1);

    let mut counts = FailureCounts::new();
    // first failed ping: counted, not yet removed
    assert_eq!(p.keep_alive_cycle(1_000, &mut counts, |_id| false), 0);
    assert_eq!(p.stats().active, 1);
    assert_eq!(counts.count(_seeded.id()), 1);
    // second failed ping reaches the threshold: retired, counter erased
    assert_eq!(p.keep_alive_cycle(2_000, &mut counts, |_id| false), 1);
    let s = p.stats();
    assert_eq!((s.available, s.active), (0, 0));
    assert_eq!(counts.count(_seeded.id()), 0);

    // the one replacement brings it back
    let _fresh = p.admit_replacement(2_100).unwrap();
    assert_eq!(p.stats().active, 1);
}

/// A successful ping erases the failure count: failures must be
/// consecutive to retire an instance.
#[test]
fn test_ping_success_resets_count() {
    let mut p = pool(1, 0, 3_600_000, 2);
    let _seeded = p.admit_replacement(0).unwrap();
    let mut counts = FailureCounts::new();
    assert_eq!(p.keep_alive_cycle(1_000, &mut counts, |_id| false), 0);
    assert_eq!(counts.count(_seeded.id()), 1);
    assert_eq!(p.keep_alive_cycle(2_000, &mut counts, |_id| true), 0);
    assert_eq!(counts.count(_seeded.id()), 0, "a successful ping erases the count");
    assert_eq!(p.keep_alive_cycle(3_000, &mut counts, |_id| false), 0);
    assert_eq!(counts.count(_seeded.id()), 1);
    assert_eq!(p.stats().active, 1, "non-consecutive failures do not retire");
}

/// A forged duplicate return is discarded and the idle pool does not
/// grow beyond the one copy.
#[test]
fn test_duplicate_return_discarded() {
    let mut p = pool(3, 0, 60_000, 3);
    let t = p.admit_leased(0).unwrap();
    assert_eq!(p.release(t.id(), 100), ReleaseOutcome::Returned);
    assert_eq!(p.stats().available, 1);

    // forge a second release for the same instance
    assert_eq!(p.release(t.id(), 200), ReleaseOutcome::Duplicate);
    assert_eq!(p.stats().available, 1);
}

/// A return of an instance the pool no longer tracks is stale and ignored.
#[test]
fn test_stale_return_ignored() {
    let mut p = pool(3, 0, 60_000, 3);
    assert_eq!(p.release(42, 0), ReleaseOutcome::Stale);
    assert_eq!(p.stats().active, 0);
}

/// An expired instance is retired on return instead of rejoining idle.
#[test]
fn test_expired_return_retired() {
    let mut p = pool(3, 0, 1_000, 3);
    let t = p.admit_leased(0).unwrap();
    assert_eq!(p.release(t.id(), 2_000), ReleaseOutcome::Expired);
    let s = p.stats();
    assert_eq!((s.available, s.active), (0, 0));
    // the retirement calls for one replacement
    assert!(p.replacement_should_run());
}

/// A return into a full idle pool shrinks the pool instead of overfilling.
#[test]
fn test_full_pool_return_shrinks() {
    let mut p = pool(1, 0, 60_000, 3);
    let a = p.admit_leased(0).unwrap();
    let b = p.admit_leased(0).unwrap();
    assert_eq!(p.release(a.id(), 100), ReleaseOutcome::Returned);
    assert_eq!(p.stats().available, 1);
    assert_eq!(p.release(b.id(), 100), ReleaseOutcome::Shrunk);
    let s = p.stats();
    assert_eq!((s.available, s.active), (1, 1));
}

/// Shutdown latches: later operations refuse, the keep-alive cycle does
/// nothing, replacements do not start, and a second shutdown changes
/// nothing.
#[test]
fn test_shutdown_latch_and_idempotence() {
    let mut p = pool(5, 0, 60_000, 3);
    let t = p.admit_leased(0).unwrap();
    p.shutdown();
    assert!(p.is_shutting_down());

    // acquire refuses
    assert_eq!(p.acquire(1_000, |_id| true), AcquireOutcome::ShuttingDown);
    // no new replacement tasks are started
    assert!(!p.replacement_should_run());
    assert!(p.admit_replacement(1_000).is_err());
    assert!(p.admit_leased(1_000).is_err());
    // the keep-alive cycle exits without touching anything
    let mut counts = FailureCounts::new();
    let before = p.stats();
    assert_eq!(p.keep_alive_cycle(1_000, &mut counts, |_id| false), 0);
    let after = p.stats();
    assert_eq!(before, after);
    // a lease dropped during shutdown is discarded
    assert_eq!(p.release(t.id(), 1_000), ReleaseOutcome::DiscardedShutdown);

    // shutting down twice has the same effect as once
    let once = p.stats();
    p.shutdown();
    assert!(p.is_shutting_down());
    assert_eq!(p.stats(), once);
}

/// A zero TTL makes every aged instance immediately expired: acquire
/// creates fresh ones, and the keep-alive loop retires on its first cycle.
#[test]
fn test_zero_ttl() {
    let mut p = pool(2, 0, 0, 3);
    let t = p.admit_leased(0).unwrap();
    // a return at the same clock reading is not yet past its (zero) TTL
    assert_eq!(p.release(t.id(), 0), ReleaseOutcome::Returned);

    // but no acquire will hand it out: the grace margin blocks a zero TTL
    assert_eq!(p.acquire(5, |_id| true), AcquireOutcome::NeedsCreate);

    // and the first keep-alive cycle that sees it aged retires it
    let mut counts = FailureCounts::new();
    let replaced = p.keep_alive_cycle(5, &mut counts, |_id| true);
    assert_eq!(replaced, 1);
    assert_eq!(p.stats().active, 0);
}

/// Reading statistics does not change them.
#[test]
fn test_stats_is_pure() {
    let mut p = pool(3, 0, 60_000, 3);
    let t = p.admit_leased(0).unwrap();
    p.release(t.id(), 100);
    let s1 = p.stats();
    let _ = p.stats();
    let _ = p.is_ready();
    let _ = p.leased_count();
    let _ = p.is_leased(t.id());
    let s2 = p.stats();
    assert_eq!(s1, s2);
}

/// At most one live lease exists per id: after a lease is taken its id is
/// leased once, and releasing ends it.
#[test]
fn test_single_lease_per_id() {
    let mut p = pool(2, 0, 60_000, 3);
    let t = p.admit_leased(0).unwrap();
    assert!(p.is_leased(t.id()));
    assert_eq!(p.leased_count(), 1);
    assert_eq!(p.release(t.id(), 100), ReleaseOutcome::Returned);
    assert!(!p.is_leased(t.id()));
    assert_eq!(p.leased_count(), 0);
    // re-acquiring leases it again, still exactly once
    match p.acquire(200, |_id| true) {
        AcquireOutcome::Leased(t2) => {
            assert_eq!(t2.id(), t.id());
            assert!(p.is_leased(t.id()));
            assert_eq!(p.leased_count(), 1);
        }
        other => panic!("expected a lease, got {:?}", other),
    }
}

/// An unhealthy idle candidate is dropped during acquire and the next
/// candidate is tried.
#[test]
fn test_acquire_skips_unhealthy_candidate() {
    let mut p = pool(3, 0, 3_600_000, 3);
    let a = p.admit_replacement(0).unwrap();
    let b = p.admit_replacement(1).unwrap();
    assert_eq!(p.stats().available, 2);

    // the warm end (b) fails its health check; a is handed out instead
    match p.acquire(10, |id| id != b.id()) {
        AcquireOutcome::Leased(t) => assert_eq!(t.id(), a.id()),
        other => panic!("expected a lease, got {:?}", other),
    }
    let s = p.stats();
    assert_eq!(
        (s.available, s.active),
        (0, 1),
        "the unhealthy instance left tracking entirely"
    );
}

/// The failure-count table keeps one count per id, erased on success.
#[test]
fn test_failure_counts_bookkeeping() {
    let mut counts = FailureCounts::new();
    assert_eq!(counts.count(9), 0);
    assert_eq!(counts.record_failure(9), 1);
    assert_eq!(counts.record_failure(9), 2);
    assert_eq!(counts.record_failure(4), 1);
    assert_eq!(counts.count(9), 2);
    assert_eq!(counts.count(4), 1);
    counts.clear(9);
    assert_eq!(counts.count(9), 0);
    assert_eq!(counts.count(4), 1);
}

/// Acquire walks past several unhealthy candidates before giving up and
/// asking for a fresh creation.
#[test]
fn test_acquire_exhausts_unhealthy_pool() {
    let mut p = pool(3, 3, 3_600_000, 3);
    let created = p.warmup(&vec![Some(0), Some(1), Some(2)]);
    assert_eq!(created, 3);

    // every ping fails: all three are dropped from tracking
    assert_eq!(p.acquire(10, |_id| false), AcquireOutcome::NeedsCreate);
    let s = p.stats();
    assert_eq!((s.available, s.active), (0, 0));
}


/// Warmup admits exactly the reported successes, in order, under fresh
/// sequential ids with the reported birth times.
#[test]
fn test_warmup_accounting() {
    let mut p = pool(5, 4, 3_600_000, 3);
    let created = p.warmup(&vec![Some(10), None, Some(30), Some(40)]);
    assert_eq!(created, 3);
    let s = p.stats();
    assert_eq!((s.available, s.active), (3, 3));

    // the most recently admitted success is at the warm end of idle
    match p.acquire(50, |_id| true) {
        AcquireOutcome::Leased(t) => {
            assert_eq!(t.id(), 2);
            assert_eq!(t.created_at(), 40);
        }
        other => panic!("expected a lease, got {:?}", other),
    }
}
