//! A verified core for a pool of long-lived headless-browser processes.
//!
//! The pool hands out leases on tracked browser instances, retires instances
//! that outlive their TTL or fail health checks, and schedules replacements
//! to keep the pool at its target capacity.  The modules here hold the
//! decision logic of that lifecycle as a sequential state machine over plain
//! values (ids and clock readings); the surrounding process runs the clock,
//! the threads and the browser I/O and feeds their outcomes in.

pub mod config;
pub mod error;
pub mod healthcheck;
pub mod instance;
pub mod keepalive;
pub mod pool;
pub mod service;
pub mod stats;
pub mod text;

pub use config::BrowserPoolConfig;
pub use config::BrowserPoolConfigBuilder;
pub use error::BrowserPoolError;
pub use error::PoolResult;
pub use healthcheck::Healthcheck;
pub use keepalive::FailureCounts;
pub use keepalive::FailureEntry;
pub use pool::AcquireOutcome;
pub use pool::GRACE_PERIOD_MS;
pub use pool::PoolCore;
pub use pool::ReleaseOutcome;
pub use pool::STAGGER_INTERVAL_MS;
pub use service::DEFAULT_TIMEOUT_SECS;
pub use service::DEFAULT_WAIT_SECS;
pub use service::JS_POLL_INTERVAL_MS;
pub use service::ErrorResponse;
pub use service::HealthResponse;
pub use service::PdfFromHtmlRequest;
pub use service::PdfFromUrlRequest;
pub use service::PdfResponse;
pub use service::PdfServiceError;
pub use service::PoolStatsResponse;
pub use instance::TrackedBrowser;
pub use stats::PoolStats;
