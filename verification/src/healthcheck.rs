//! The health-check interface browser wrappers implement.

use vstd::prelude::*;

use crate::error::BrowserPoolError;

verus! {

/// An object that can verify it is still alive and responsive.
///
/// The process driving the pool implements this for its browser wrapper:
/// a ping opens a throwaway surface on the browser and closes it again,
/// failing when the process is dead or unresponsive.  The keep-alive loop
/// reports each outcome into
/// [`PoolCore::keep_alive_cycle`](crate::pool::PoolCore::keep_alive_cycle).
pub trait Healthcheck {
    /// Perform one lightweight liveness check.
    fn ping(&self) -> Result<(), BrowserPoolError>;
}

} // verus!
