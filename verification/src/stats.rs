//! A snapshot of the pool's occupancy, for monitoring and health checks.

use vstd::prelude::*;

use crate::text::dec_rep;
use crate::text::usize_to_string;

verus! {

/// Snapshot of pool statistics at a point in time.
///
/// `available` counts idle browsers ready for checkout, `active` counts
/// every tracked browser (idle and checked out), and `total` currently
/// always equals `active` (kept for a future split).
#[derive(Clone, Copy, Debug, PartialEq, Eq, Structural)]
pub struct PoolStats {
    /// Browsers idle in the pool, ready for checkout.
    pub available: usize,
    /// All tracked browsers, idle and checked out together.
    pub active: usize,
    /// Reserved for a future split; currently equal to `active`.
    pub total: usize,
}

/// The text `stats.to_string()` produces for given field values.
pub open spec fn spec_stats_text(available: int, active: int, total: int) -> Seq<char> {
    "PoolStats { available: "@ + dec_rep(available) + ", active: "@ + dec_rep(active) + ", total: "@
        + dec_rep(total) + " }"@
}

impl PoolStats {
    /// Browsers currently checked out: `active - available`, clamped at zero.
    pub fn checked_out(&self) -> (r: usize)
        ensures
            self.active >= self.available ==> r == self.active - self.available,
            self.active < self.available ==> r == 0,
    {
        if self.active >= self.available {
            self.active - self.available
        } else {
            0
        }
    }

    /// Whether at least one browser is idle and ready.
    pub fn has_available(&self) -> (r: bool)
        ensures
            r <==> self.available > 0,
    {
        self.available > 0
    }

    /// Whether the pool tracks no browsers at all.
    pub fn is_empty(&self) -> (r: bool)
        ensures
            r <==> self.active == 0,
    {
        self.active == 0
    }

    /// Render the snapshot as one line of text for logging.
    pub fn to_string(&self) -> (r: String)
        ensures
            r@ == spec_stats_text(self.available as int, self.active as int, self.total as int),
    {
        let mut s = String::from_str("PoolStats { available: ");
        s.append(usize_to_string(self.available).as_str());
        s.append(", active: ");
        s.append(usize_to_string(self.active).as_str());
        s.append(", total: ");
        s.append(usize_to_string(self.total).as_str());
        s.append(" }");
        proof {
            assert(s@ =~= spec_stats_text(
                self.available as int,
                self.active as int,
                self.total as int,
            ));
        }
        s
    }
}

} // verus!
