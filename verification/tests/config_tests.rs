//! Tests of the configuration builder and its validation.

use html2pdf_api::BrowserPoolConfig;
use html2pdf_api::BrowserPoolConfigBuilder;

/// Verifies that BrowserPoolConfigBuilder correctly sets all configuration values.
#[test]
fn test_config_builder() {
    let config = BrowserPoolConfigBuilder::new()
        .max_pool_size(10)
        .warmup_count(5)
        .browser_ttl(7_200_000)
        .warmup_timeout(120_000)
        .build()
        .unwrap();

    assert_eq!(config.max_pool_size, 10);
    assert_eq!(config.warmup_count, 5);
    assert_eq!(config.browser_ttl, 7_200_000);
    assert_eq!(config.warmup_timeout, 120_000);
}

/// Verifies that config builder rejects invalid pool size (zero).
#[test]
fn config_test_config_validation() {
    let result = BrowserPoolConfigBuilder::new().max_pool_size(0).build();

    assert!(result.is_err());
    let err_msg = result.unwrap_err();
    assert!(
        err_msg.contains("max_pool_size must be greater than 0"),
        "Expected validation error message, got: {}",
        err_msg
    );
}

/// Verifies that warmup count cannot exceed pool size.
#[test]
fn test_config_warmup_exceeds_pool() {
    let result = BrowserPoolConfigBuilder::new()
        .max_pool_size(5)
        .warmup_count(10)
        .build();

    assert!(result.is_err());
    let err_msg = result.unwrap_err();
    assert!(
        err_msg.contains("warmup_count cannot exceed max_pool_size"),
        "Expected validation error message, got: {}",
        err_msg
    );
}

/// Verifies that default configuration values are production-ready.
#[test]
fn test_config_defaults() {
    let config = BrowserPoolConfig::default();

    assert_eq!(config.max_pool_size, 5, "Default pool size should be 5");
    assert_eq!(config.warmup_count, 3, "Default warmup should be 3");
    assert_eq!(
        config.ping_interval, 15_000,
        "Default ping interval should be 15s"
    );
    assert_eq!(config.browser_ttl, 3_600_000, "Default TTL should be 1 hour");
    assert_eq!(
        config.max_ping_failures, 3,
        "Default max failures should be 3"
    );
    assert_eq!(
        config.warmup_timeout, 60_000,
        "Default warmup timeout should be 60s"
    );
}

/// Verifies that config builder supports method chaining.
#[test]
fn test_config_builder_chaining() {
    let config = BrowserPoolConfigBuilder::new()
        .max_pool_size(8)
        .warmup_count(4)
        .ping_interval(30_000)
        .browser_ttl(1_800_000)
        .max_ping_failures(5)
        .warmup_timeout(90_000)
        .build()
        .unwrap();

    assert_eq!(config.max_pool_size, 8);
    assert_eq!(config.warmup_count, 4);
    assert_eq!(config.ping_interval, 30_000);
    assert_eq!(config.browser_ttl, 1_800_000);
    assert_eq!(config.max_ping_failures, 5);
    assert_eq!(config.warmup_timeout, 90_000);
}

/// Verifies that BrowserPoolConfigBuilder implements Default.
#[test]
fn config_test_builder_default() {
    let builder: BrowserPoolConfigBuilder = Default::default();
    let config = builder.build().unwrap();

    assert_eq!(config.max_pool_size, 5);
    assert_eq!(config.warmup_count, 3);
}

/// Test configuration validation.
#[test]
fn integration_tests_test_config_validation() {
    // Zero pool size should fail
    let result = BrowserPoolConfigBuilder::new().max_pool_size(0).build();
    assert!(result.is_err());

    // Warmup > pool size should fail
    let result = BrowserPoolConfigBuilder::new()
        .max_pool_size(3)
        .warmup_count(5)
        .build();
    assert!(result.is_err());

    // Valid config should succeed
    let result = BrowserPoolConfigBuilder::new()
        .max_pool_size(5)
        .warmup_count(3)
        .browser_ttl(3_600_000)
        .build();
    assert!(result.is_ok());
}
