//! Consecutive-failure bookkeeping for the keep-alive loop.
//!
//! The keep-alive loop owns one [`FailureCounts`] across its cycles.  A
//! successful ping erases an instance's count; a failed ping raises it; an
//! instance whose count reaches the configured threshold is retired.

use vstd::prelude::*;

verus! {

/// One instance's consecutive ping-failure count.
#[derive(Clone, Copy, Debug, PartialEq, Eq, Structural)]
pub struct FailureEntry {
    /// The instance the count belongs to.
    pub id: u64,
    /// Consecutive failures seen since the last success.
    pub fails: u32,
}

/// Whether the entry ids in `s` are pairwise distinct.
pub open spec fn entries_unique(s: Seq<FailureEntry>) -> bool {
    forall|i: int, j: int| 0 <= i < j < s.len() ==> s[i].id != s[j].id
}

/// The count recorded for `id` in `s`; zero when no entry exists.
pub open spec fn seq_count_of(s: Seq<FailureEntry>, id: u64) -> int {
    if exists|i: int| 0 <= i < s.len() && s[i].id == id {
        s[choose|i: int| 0 <= i < s.len() && s[i].id == id].fails as int
    } else {
        0
    }
}

/// Consecutive ping-failure counts, one per instance id.
pub struct FailureCounts {
    /// The counts; at most one entry per id.
    pub entries: Vec<FailureEntry>,
}

impl FailureCounts {
    /// At most one entry per id.
    pub open spec fn wf(self) -> bool {
        entries_unique(self.entries@)
    }

    /// The count recorded for `id`; zero when no entry exists.
    pub open spec fn count_of(self, id: u64) -> int {
        seq_count_of(self.entries@, id)
    }

    /// An empty table: every count is zero.
    pub fn new() -> (r: FailureCounts)
        ensures
            r.wf(),
            forall|id: u64| r.count_of(id) == 0,
    {
        FailureCounts { entries: Vec::new() }
    }

    /// The count recorded for `id`.
    pub fn count(&self, id: u64) -> (r: u32)
        requires
            self.wf(),
        ensures
            r as int == self.count_of(id),
    {
        let mut k: usize = 0;
        while k < self.entries.len()
            invariant
                entries_unique(self.entries@),
                k <= self.entries@.len(),
                forall|i: int| 0 <= i < k ==> self.entries@[i].id != id,
            decreases self.entries@.len() - k,
        {
            if self.entries[k].id == id {
                proof {
                    let j = choose|j: int|
                        0 <= j < self.entries@.len() && self.entries@[j].id == id;
                    assert(j == k as int) by {
                        if j < k as int {
                            assert(self.entries@[j].id != self.entries@[k as int].id);
                        } else if (k as int) < j {
                            assert(self.entries@[k as int].id != self.entries@[j].id);
                        }
                    }
                }
                return self.entries[k].fails;
            }
            k = k + 1;
        }
        0
    }

    /// Erase the count for `id` (on a successful ping, or when the
    /// instance leaves the pool).
    pub fn clear(&mut self, id: u64)
        requires
            old(self).wf(),
        ensures
            final(self).wf(),
            final(self).count_of(id) == 0,
            forall|x: u64| x != id ==> final(self).count_of(x) == old(self).count_of(x),
    {
        let mut k: usize = 0;
        let n = self.entries.len();
        while k < n
            invariant
                entries_unique(self.entries@),
                self.entries@ == old(self).entries@,
                n == self.entries@.len(),
                k <= n,
                forall|i: int| 0 <= i < k ==> self.entries@[i].id != id,
            decreases n - k,
        {
            if self.entries[k].id == id {
                let ghost prev = self.entries@;
                self.entries.remove(k);
                proof {
                    assert(self.entries@ =~= prev.subrange(0, k as int) + prev.subrange(
                        k + 1,
                        prev.len() as int,
                    ));
                    assert forall|j: int| 0 <= j < self.entries@.len() implies self.entries@[j].id
                        != id by {
                        if j < k {
                            assert(self.entries@[j] == prev[j]);
                        } else {
                            assert(self.entries@[j] == prev[j + 1]);
                            assert(prev[j + 1].id != prev[k as int].id);
                        }
                    }
                    assert forall|j: int, l: int|
                        0 <= j < l < self.entries@.len() implies self.entries@[j].id
                        != self.entries@[l].id by {
                        let j0 = if j < k { j } else { j + 1 };
                        let l0 = if l < k { l } else { l + 1 };
                        assert(self.entries@[j] == prev[j0]);
                        assert(self.entries@[l] == prev[l0]);
                    }
                    assert forall|x: u64| x != id implies final(self).count_of(x) == old(
                        self,
                    ).count_of(x) by {
                        lemma_count_entry_shift(prev, self.entries@, k as int, x);
                    }
                }
                return ;
            }
            k = k + 1;
        }
    }

    /// Record one more consecutive failure for `id` and return the new
    /// count (which saturates at `u32::MAX`).
    pub fn record_failure(&mut self, id: u64) -> (n: u32)
        requires
            old(self).wf(),
        ensures
            final(self).wf(),
            old(self).count_of(id) < u32::MAX ==> n as int == old(self).count_of(id) + 1,
            old(self).count_of(id) == u32::MAX ==> n == u32::MAX,
            final(self).count_of(id) == n as int,
            forall|x: u64| x != id ==> final(self).count_of(x) == old(self).count_of(x),
    {
        let mut k: usize = 0;
        let n = self.entries.len();
        while k < n
            invariant
                entries_unique(self.entries@),
                self.entries@ == old(self).entries@,
                n == self.entries@.len(),
                k <= n,
                forall|i: int| 0 <= i < k ==> self.entries@[i].id != id,
            decreases n - k,
        {
            if self.entries[k].id == id {
                proof {
                    let j = choose|j: int|
                        0 <= j < self.entries@.len() && self.entries@[j].id == id;
                    assert(j == k as int) by {
                        if j < k as int {
                            assert(self.entries@[j].id != self.entries@[k as int].id);
                        } else if (k as int) < j {
                            assert(self.entries@[k as int].id != self.entries@[j].id);
                        }
                    }
                }
                let prev_fails = self.entries[k].fails;
                let new_fails: u32 = if prev_fails < u32::MAX {
                    prev_fails + 1
                } else {
                    prev_fails
                };
                let ghost prev = self.entries@;
                let entry = vstd::std_specs::vec::vec_index_mut(&mut self.entries, k);
                *entry = FailureEntry { id, fails: new_fails };
                proof {
                    assert(self.entries@ == prev.update(
                        k as int,
                        FailureEntry { id, fails: new_fails },
                    ));
                    assert forall|j: int, l: int|
                        0 <= j < l < self.entries@.len() implies self.entries@[j].id
                        != self.entries@[l].id by {
                        assert(prev[j].id != prev[l].id);
                    }
                    let j2 = choose|j2: int|
                        0 <= j2 < self.entries@.len() && self.entries@[j2].id == id;
                    assert(j2 == k as int) by {
                        if j2 < k as int {
                            assert(self.entries@[j2].id != self.entries@[k as int].id);
                        } else if (k as int) < j2 {
                            assert(self.entries@[k as int].id != self.entries@[j2].id);
                        }
                    }
                    assert forall|x: u64| x != id implies final(self).count_of(x) == old(
                        self,
                    ).count_of(x) by {
                        lemma_count_entry_update(prev, self.entries@, k as int, x);
                    }
                }
                return new_fails;
            }
            k = k + 1;
        }
        let ghost prev = self.entries@;
        self.entries.push(FailureEntry { id, fails: 1 });
        proof {
            assert forall|j: int, l: int|
                0 <= j < l < self.entries@.len() implies self.entries@[j].id
                != self.entries@[l].id by {
                if l < self.entries@.len() - 1 {
                    assert(self.entries@[j] == prev[j]);
                    assert(self.entries@[l] == prev[l]);
                } else {
                    assert(self.entries@[j] == prev[j]);
                    assert(self.entries@[l].id == id);
                }
            }
            assert(self.entries@[self.entries@.len() - 1].id == id);
            let j2 = choose|j2: int| 0 <= j2 < self.entries@.len() && self.entries@[j2].id == id;
            assert(j2 == self.entries@.len() - 1) by {
                if j2 < self.entries@.len() - 1 {
                    assert(self.entries@[j2] == prev[j2]);
                }
            }
            assert(old(self).count_of(id) == 0);
            assert(seq_count_of(self.entries@, id) == 1);
            assert forall|x: u64| x != id implies final(self).count_of(x) == old(self).count_of(
                x,
            ) by {
                lemma_count_entry_push(prev, self.entries@, x);
            }
        }
        1
    }
}

/// Removing the entry at `k` leaves every other id's count unchanged.
proof fn lemma_count_entry_shift(prev: Seq<FailureEntry>, cur: Seq<FailureEntry>, k: int, x: u64)
    requires
        entries_unique(prev),
        0 <= k < prev.len(),
        cur == prev.subrange(0, k) + prev.subrange(k + 1, prev.len() as int),
        x != prev[k].id,
    ensures
        seq_count_of(cur, x) == seq_count_of(prev, x),
{
    if exists|i: int| 0 <= i < prev.len() && prev[i].id == x {
        let i = choose|i: int| 0 <= i < prev.len() && prev[i].id == x;
        assert(i != k);
        if i < k {
            assert(cur[i] == prev[i]);
        } else {
            assert(cur[i - 1] == prev[i]);
        }
        let j = choose|j: int| 0 <= j < cur.len() && cur[j].id == x;
        let j0 = if j < k {
            j
        } else {
            j + 1
        };
        assert(cur[j] == prev[j0]);
        assert(j0 == i);
    } else {
        assert forall|j: int| 0 <= j < cur.len() implies cur[j].id != x by {
            if j < k {
                assert(cur[j] == prev[j]);
            } else {
                assert(cur[j] == prev[j + 1]);
            }
        }
    }
}

/// Overwriting the entry at `k` in place leaves every other id's count
/// unchanged, provided the id at `k` stays the same.
proof fn lemma_count_entry_update(prev: Seq<FailureEntry>, cur: Seq<FailureEntry>, k: int, x: u64)
    requires
        entries_unique(prev),
        0 <= k < prev.len(),
        cur.len() == prev.len(),
        forall|j: int| 0 <= j < cur.len() && j != k ==> cur[j] == prev[j],
        cur[k].id == prev[k].id,
        x != prev[k].id,
    ensures
        seq_count_of(cur, x) == seq_count_of(prev, x),
{
    assert forall|j: int| 0 <= j < cur.len() implies (cur[j].id == x <==> prev[j].id == x) by {
        if j != k {
            assert(cur[j] == prev[j]);
        }
    }
    if exists|i: int| 0 <= i < prev.len() && prev[i].id == x {
        let i = choose|i: int| 0 <= i < prev.len() && prev[i].id == x;
        let j = choose|j: int| 0 <= j < cur.len() && cur[j].id == x;
        assert(prev[j].id == x);
        assert(i == j);
        assert(i != k);
        assert(cur[j] == prev[j]);
    }
}

/// Appending an entry for a fresh id leaves every other id's count
/// unchanged.
proof fn lemma_count_entry_push(prev: Seq<FailureEntry>, cur: Seq<FailureEntry>, x: u64)
    requires
        entries_unique(prev),
        cur.len() == prev.len() + 1,
        forall|j: int| 0 <= j < prev.len() ==> cur[j] == prev[j],
        x != cur[cur.len() - 1].id,
    ensures
        seq_count_of(cur, x) == seq_count_of(prev, x),
{
    if exists|i: int| 0 <= i < prev.len() && prev[i].id == x {
        let i = choose|i: int| 0 <= i < prev.len() && prev[i].id == x;
        assert(cur[i].id == x);
        let j = choose|j: int| 0 <= j < cur.len() && cur[j].id == x;
        let i2 = choose|i2: int| 0 <= i2 < prev.len() && prev[i2].id == x;
        assert(j < cur.len() - 1);
        assert(prev[j].id == x);
        assert(j == i2) by {
            if j < i2 {
                assert(prev[j].id != prev[i2].id);
            } else if i2 < j {
                assert(prev[i2].id != prev[j].id);
            }
        }
        assert(cur[j] == prev[i2]);
    } else {
        assert forall|j: int| 0 <= j < cur.len() implies cur[j].id != x by {
            if j < cur.len() - 1 {
                assert(cur[j] == prev[j]);
            }
        }
    }
}

} // verus!
