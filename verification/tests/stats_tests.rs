//! Tests of the pool statistics snapshot.

use html2pdf_api::PoolStats;

/// Verifies PoolStats structure and field access.
#[test]
fn test_pool_stats_structure() {
    let stats = PoolStats {
        available: 5,
        active: 3,
        total: 8,
    };

    assert_eq!(stats.available, 5, "Available browsers should be accessible");
    assert_eq!(stats.active, 3, "Active browsers should be accessible");
    assert_eq!(stats.total, 8, "Total browsers should be accessible");
}

/// Verifies the checked_out() convenience method.
#[test]
fn test_checked_out() {
    let stats = PoolStats {
        available: 2,
        active: 5,
        total: 5,
    };

    assert_eq!(stats.checked_out(), 3);
}

/// Verifies checked_out() handles edge case where available > active.
#[test]
fn test_checked_out_saturating() {
    let stats = PoolStats {
        available: 10,
        active: 5,
        total: 5,
    };

    assert_eq!(stats.checked_out(), 0);
}

/// Verifies has_available() method.
#[test]
fn test_has_available() {
    let stats_with = PoolStats {
        available: 1,
        active: 1,
        total: 1,
    };
    assert!(stats_with.has_available());

    let stats_without = PoolStats {
        available: 0,
        active: 1,
        total: 1,
    };
    assert!(!stats_without.has_available());
}

/// Verifies is_empty() method.
#[test]
fn test_is_empty() {
    let empty = PoolStats {
        available: 0,
        active: 0,
        total: 0,
    };
    assert!(empty.is_empty());

    let not_empty = PoolStats {
        available: 0,
        active: 1,
        total: 1,
    };
    assert!(!not_empty.is_empty());
}

/// Verifies the text rendering.
#[test]
fn test_display() {
    let stats = PoolStats {
        available: 3,
        active: 5,
        total: 5,
    };

    assert_eq!(
        stats.to_string(),
        "PoolStats { available: 3, active: 5, total: 5 }"
    );
}

/// Verifies that PoolStats implements Clone.
#[test]
fn test_clone() {
    let stats = PoolStats {
        available: 3,
        active: 5,
        total: 5,
    };

    let cloned = stats.clone();
    assert_eq!(cloned.available, stats.available);
    assert_eq!(cloned.active, stats.active);
    assert_eq!(cloned.total, stats.total);
}

/// Verifies that PoolStats implements Debug.
#[test]
fn test_debug() {
    let stats = PoolStats {
        available: 3,
        active: 5,
        total: 5,
    };

    let debug_str = format!("{:?}", stats);
    assert!(debug_str.contains("PoolStats"));
    assert!(debug_str.contains("available"));
}

/// Larger counts render in full decimal.
#[test]
fn test_display_large_counts() {
    let stats = PoolStats {
        available: 120,
        active: 4096,
        total: 4096,
    };

    assert_eq!(
        stats.to_string(),
        "PoolStats { available: 120, active: 4096, total: 4096 }"
    );
}
