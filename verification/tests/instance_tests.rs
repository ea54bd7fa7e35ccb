//! Tests of the tracked-instance expiry arithmetic.

use html2pdf_api::TrackedBrowser;
use std::time::Duration;
use std::time::Instant;

/// Verifies TTL (Time-To-Live) expiry calculation logic.
#[test]
fn test_tracked_browser_expiry_logic() {
    // Simulate a browser created 3700 seconds ago (over 1 hour)
    let created_at = Instant::now() - Duration::from_secs(3700);
    let ttl = Duration::from_secs(3600); // 1 hour TTL

    // Calculate age
    let age = created_at.elapsed();

    // Verify expiry logic
    assert!(
        age > ttl,
        "Browser age ({:?}) should exceed TTL ({:?})",
        age,
        ttl
    );

    // Verify age calculation
    let age_minutes = age.as_secs() / 60;
    assert!(
        age_minutes > 60,
        "Browser age should exceed 60 minutes, got {} minutes",
        age_minutes
    );
}

/// Verifies that is_expired returns correct values.
#[test]
fn test_is_expired_boundary() {
    let ttl = Duration::from_secs(100);

    // Just created - should not be expired
    let just_created = Instant::now();
    assert!(just_created.elapsed() < ttl);

    // Old timestamp - should be expired
    let old = Instant::now() - Duration::from_secs(101);
    assert!(old.elapsed() > ttl);
}

/// Verifies age_minutes calculation.
#[test]
fn test_age_minutes_calculation() {
    // Test the math: 3700 seconds = 61 minutes
    let seconds: u64 = 3700;
    let minutes = seconds / 60;
    assert_eq!(minutes, 61);

    // Test edge cases
    assert_eq!(59u64 / 60, 0); // Less than a minute
    assert_eq!(60u64 / 60, 1); // Exactly one minute
    assert_eq!(119u64 / 60, 1); // Just under two minutes
    assert_eq!(120u64 / 60, 2); // Exactly two minutes
}

/// The tracked record's own expiry arithmetic, at the boundary.
#[test]
fn test_tracked_record_is_expired() {
    let t = TrackedBrowser {
        id: 7,
        created_at: 1_000,
        last_ping_at: 1_000,
    };

    assert_eq!(t.id(), 7);
    assert_eq!(t.created_at(), 1_000);
    assert_eq!(t.age(1_000), 0);
    assert_eq!(t.age(4_700_000), 4_699_000);
    assert_eq!(t.age_minutes(3_701_000), 61);

    // age == ttl is not yet expired; one millisecond more is.
    assert!(!t.is_expired(100, 1_100));
    assert!(t.is_expired(100, 1_101));
    // a clock reading before creation counts as age zero.
    assert_eq!(t.age(500), 0);
}
