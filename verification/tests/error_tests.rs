//! Tests of the pool's error taxonomy.

use html2pdf_api::BrowserPoolError;
use html2pdf_api::PoolResult;

/// Verifies error type conversions from String and &str.
#[test]
fn test_error_conversion() {
    // Test conversion from &str
    let error: BrowserPoolError = "test error".into();
    match error {
        BrowserPoolError::Configuration(msg) => {
            assert_eq!(msg, "test error", "Error message should be preserved");
        }
        _ => panic!("Expected Configuration error variant"),
    }

    // Test conversion from String
    let error: BrowserPoolError = "another error".to_string().into();
    match error {
        BrowserPoolError::Configuration(msg) => {
            assert_eq!(msg, "another error", "Error message should be preserved");
        }
        _ => panic!("Expected Configuration error variant"),
    }
}

/// Verifies that error text formatting works correctly.
#[test]
fn test_error_display() {
    let error = BrowserPoolError::BrowserCreation("chrome not found".to_string());
    assert_eq!(
        error.to_string(),
        "Failed to create browser: chrome not found"
    );

    let error = BrowserPoolError::HealthCheckFailed("ping failed".to_string());
    assert_eq!(error.to_string(), "Browser health check failed: ping failed");

    let error = BrowserPoolError::ShuttingDown;
    assert_eq!(error.to_string(), "Pool is shutting down");

    let error = BrowserPoolError::Configuration("bad config".to_string());
    assert_eq!(error.to_string(), "Configuration error: bad config");
}

/// Verify all core types are accessible.
#[test]
fn test_core_types_exported() {
    fn _accepts_config(_: html2pdf_api::BrowserPoolConfig) {}
    fn _accepts_error(_: BrowserPoolError) {}
    fn _accepts_stats(_: html2pdf_api::PoolStats) {}
    fn _returns_result() -> PoolResult<()> {
        Ok(())
    }
}
