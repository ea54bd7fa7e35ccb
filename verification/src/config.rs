//! Pool configuration and its validating builder.
//!
//! All durations are kept as plain millisecond counts so that the pool's
//! decision logic can compare them against monotonic clock readings.

use vstd::prelude::*;

verus! {

/// Tuning parameters of the browser pool, immutable once built.
///
/// Construct through [`BrowserPoolConfigBuilder`], which enforces the two
/// structural rules: `max_pool_size > 0` and `warmup_count <= max_pool_size`.
#[derive(Clone, Copy, Debug, PartialEq, Eq, Structural)]
pub struct BrowserPoolConfig {
    /// Maximum number of idle browsers kept in the pool.
    pub max_pool_size: usize,
    /// Number of browsers to pre-create during warmup.
    pub warmup_count: usize,
    /// Milliseconds between health-check pings of tracked browsers.
    pub ping_interval: u64,
    /// Lifetime cap per browser instance, in milliseconds.
    pub browser_ttl: u64,
    /// Consecutive ping failures tolerated before a browser is retired.
    pub max_ping_failures: u32,
    /// Cap on the whole warmup phase, in milliseconds.
    pub warmup_timeout: u64,
}

impl BrowserPoolConfig {
    /// The two structural rules a usable configuration satisfies.
    pub open spec fn wf(self) -> bool {
        &&& self.max_pool_size > 0
        &&& self.warmup_count <= self.max_pool_size
    }

    /// The production defaults: five browsers, three warmed up, pings every
    /// fifteen seconds, an hour of lifetime, three failures tolerated, a
    /// minute for warmup.
    pub open spec fn default_spec() -> BrowserPoolConfig {
        BrowserPoolConfig {
            max_pool_size: 5,
            warmup_count: 3,
            ping_interval: 15_000,
            browser_ttl: 3_600_000,
            max_ping_failures: 3,
            warmup_timeout: 60_000,
        }
    }
}

impl Default for BrowserPoolConfig {
    /// Production-ready default configuration.
    fn default() -> (r: BrowserPoolConfig)
        ensures
            r == BrowserPoolConfig::default_spec(),
            r.wf(),
    {
        BrowserPoolConfig {
            max_pool_size: 5,
            warmup_count: 3,
            ping_interval: 15_000,
            browser_ttl: 3_600_000,
            max_ping_failures: 3,
            warmup_timeout: 60_000,
        }
    }
}

/// Fluent builder for [`BrowserPoolConfig`] with validation at `build`.
pub struct BrowserPoolConfigBuilder {
    config: BrowserPoolConfig,
}

impl BrowserPoolConfigBuilder {
    /// The configuration the builder currently holds.
    pub closed spec fn config_spec(self) -> BrowserPoolConfig {
        self.config
    }

    /// Start from the default configuration.
    pub fn new() -> (r: BrowserPoolConfigBuilder)
        ensures
            r.config_spec() == BrowserPoolConfig::default_spec(),
    {
        BrowserPoolConfigBuilder { config: Default::default() }
    }

    /// Set the maximum pool size (validated to be positive at `build`).
    pub fn max_pool_size(self, size: usize) -> (r: BrowserPoolConfigBuilder)
        ensures
            r.config_spec() == (BrowserPoolConfig { max_pool_size: size, ..self.config_spec() }),
    {
        BrowserPoolConfigBuilder { config: BrowserPoolConfig { max_pool_size: size, ..self.config } }
    }

    /// Set the warmup count (validated against the pool size at `build`).
    pub fn warmup_count(self, count: usize) -> (r: BrowserPoolConfigBuilder)
        ensures
            r.config_spec() == (BrowserPoolConfig { warmup_count: count, ..self.config_spec() }),
    {
        BrowserPoolConfigBuilder { config: BrowserPoolConfig { warmup_count: count, ..self.config } }
    }

    /// Set the health-check interval in milliseconds.
    pub fn ping_interval(self, interval: u64) -> (r: BrowserPoolConfigBuilder)
        ensures
            r.config_spec() == (BrowserPoolConfig { ping_interval: interval, ..self.config_spec() }),
    {
        BrowserPoolConfigBuilder { config: BrowserPoolConfig { ping_interval: interval, ..self.config } }
    }

    /// Set the per-browser time-to-live in milliseconds.
    pub fn browser_ttl(self, ttl: u64) -> (r: BrowserPoolConfigBuilder)
        ensures
            r.config_spec() == (BrowserPoolConfig { browser_ttl: ttl, ..self.config_spec() }),
    {
        BrowserPoolConfigBuilder { config: BrowserPoolConfig { browser_ttl: ttl, ..self.config } }
    }

    /// Set how many consecutive ping failures are tolerated.
    pub fn max_ping_failures(self, failures: u32) -> (r: BrowserPoolConfigBuilder)
        ensures
            r.config_spec() == (BrowserPoolConfig { max_ping_failures: failures, ..self.config_spec() }),
    {
        BrowserPoolConfigBuilder { config: BrowserPoolConfig { max_ping_failures: failures, ..self.config } }
    }

    /// Set the warmup timeout in milliseconds.
    pub fn warmup_timeout(self, timeout: u64) -> (r: BrowserPoolConfigBuilder)
        ensures
            r.config_spec() == (BrowserPoolConfig { warmup_timeout: timeout, ..self.config_spec() }),
    {
        BrowserPoolConfigBuilder { config: BrowserPoolConfig { warmup_timeout: timeout, ..self.config } }
    }

    /// Validate and return the configuration.
    ///
    /// Fails exactly when `max_pool_size == 0` or when
    /// `warmup_count > max_pool_size`.
    pub fn build(self) -> (r: Result<BrowserPoolConfig, String>)
        ensures
            r is Ok <==> self.config_spec().wf(),
            r matches Ok(c) ==> c == self.config_spec(),
            self.config_spec().max_pool_size == 0 ==> (r matches Err(m)
                && m@ == "max_pool_size must be greater than 0"@),
            self.config_spec().max_pool_size > 0
                && self.config_spec().warmup_count > self.config_spec().max_pool_size
                ==> (r matches Err(m) && m@ == "warmup_count cannot exceed max_pool_size"@),
    {
        if self.config.max_pool_size == 0 {
            return Err(String::from_str("max_pool_size must be greater than 0"));
        }
        if self.config.warmup_count > self.config.max_pool_size {
            return Err(String::from_str("warmup_count cannot exceed max_pool_size"));
        }
        Ok(self.config)
    }
}

impl Default for BrowserPoolConfigBuilder {
    fn default() -> (r: BrowserPoolConfigBuilder)
        ensures
            r.config_spec() == BrowserPoolConfig::default_spec(),
    {
        BrowserPoolConfigBuilder::new()
    }
}

} // verus!
