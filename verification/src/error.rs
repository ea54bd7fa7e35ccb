//! The closed set of failure kinds of pool operations.

use vstd::prelude::*;

verus! {

/// Errors that can occur during browser pool operations.
#[derive(Debug, Clone)]
pub enum BrowserPoolError {
    /// The factory could not produce or validate a new browser instance.
    BrowserCreation(String),
    /// A previously valid browser failed its health check.
    HealthCheckFailed(String),
    /// The operation was attempted after the shutdown latch was set.
    ShuttingDown,
    /// A structural or range violation in the configuration.
    Configuration(String),
}

/// The text `err.to_string()` produces for each failure kind.
pub open spec fn spec_error_text(e: BrowserPoolError) -> Seq<char> {
    match e {
        BrowserPoolError::BrowserCreation(m) => "Failed to create browser: "@ + m@,
        BrowserPoolError::HealthCheckFailed(m) => "Browser health check failed: "@ + m@,
        BrowserPoolError::ShuttingDown => "Pool is shutting down"@,
        BrowserPoolError::Configuration(m) => "Configuration error: "@ + m@,
    }
}

impl BrowserPoolError {
    /// Render the error as one line of text.
    pub fn to_string(&self) -> (r: String)
        ensures
            r@ == spec_error_text(*self),
    {
        match self {
            BrowserPoolError::BrowserCreation(m) => {
                let mut s = String::from_str("Failed to create browser: ");
                s.append(m.as_str());
                s
            },
            BrowserPoolError::HealthCheckFailed(m) => {
                let mut s = String::from_str("Browser health check failed: ");
                s.append(m.as_str());
                s
            },
            BrowserPoolError::ShuttingDown => String::from_str("Pool is shutting down"),
            BrowserPoolError::Configuration(m) => {
                let mut s = String::from_str("Configuration error: ");
                s.append(m.as_str());
                s
            },
        }
    }
}

impl From<String> for BrowserPoolError {
    /// A bare message becomes a configuration error.
    fn from(msg: String) -> BrowserPoolError {
        BrowserPoolError::Configuration(msg)
    }
}

impl vstd::std_specs::convert::FromSpecImpl<String> for BrowserPoolError {
    open spec fn obeys_from_spec() -> bool {
        true
    }

    open spec fn from_spec(msg: String) -> BrowserPoolError {
        BrowserPoolError::Configuration(msg)
    }
}

impl<'a> From<&'a str> for BrowserPoolError {
    /// A bare message becomes a configuration error.
    fn from(msg: &'a str) -> BrowserPoolError {
        BrowserPoolError::Configuration(String::from_str(msg))
    }
}

impl<'a> vstd::std_specs::convert::FromSpecImpl<&'a str> for BrowserPoolError {
    open spec fn obeys_from_spec() -> bool {
        false
    }

    open spec fn from_spec(msg: &'a str) -> BrowserPoolError {
        BrowserPoolError::ShuttingDown
    }
}

/// Result type of pool operations.
pub type PoolResult<T> = Result<T, BrowserPoolError>;

} // verus!
