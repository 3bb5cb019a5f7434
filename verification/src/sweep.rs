//! The lease sweeper: one stateless, idempotent pass over every leased
//! issue, reclassifying lease health and reclaiming dead leases.
//!
//! An expired lease (past `expires_at`) is reclaimed at once.  A lease
//! whose heartbeat is older than `orphan_after` is orphaned: presumed
//! dead and reclaimed.  One older than `stale_after` but not orphaned is
//! only marked stale — the owner may still be alive but slow — and keeps
//! the lease.  Unleased issues are never touched.

use vstd::prelude::*;

use crate::error::BeadsError;
use crate::model::{IssueView, Lease};
use crate::store::{ids_unique, Store};

verus! {

/// Counts reported by one sweep pass.  `reclaimed_leases` counts both
/// reclaim paths: expired and orphaned.
pub struct LeaseSweepSummary {
    pub expired: usize,
    pub stale_marked: usize,
    pub orphaned_marked: usize,
    pub reclaimed_leases: usize,
}

/// The issue's lease is void: the clock has passed `expires_at`.
pub open spec fn lease_expired(iss: IssueView, now: int) -> bool {
    match iss.lease {
        Some(l) => now > l.expires_at,
        None => false,
    }
}

/// The issue's lease is orphaned: not expired, but the owner has not
/// heartbeated for longer than `orphan_after`.
pub open spec fn lease_orphaned(iss: IssueView, now: int, orphan_after: int) -> bool {
    match iss.lease {
        Some(l) => !(now > l.expires_at) && now - l.heartbeat_at > orphan_after,
        None => false,
    }
}

/// The issue's lease is stale: neither expired nor orphaned, but the
/// last heartbeat is older than `stale_after`.
pub open spec fn lease_stale(
    iss: IssueView,
    now: int,
    stale_after: int,
    orphan_after: int,
) -> bool {
    match iss.lease {
        Some(l) => !(now > l.expires_at) && !(now - l.heartbeat_at > orphan_after) && now
            - l.heartbeat_at > stale_after,
        None => false,
    }
}

/// What one sweep pass leaves of an issue: expired and orphaned leases
/// are cleared, everything else is untouched.
pub open spec fn swept_issue(iss: IssueView, now: int, orphan_after: int) -> IssueView {
    if lease_expired(iss, now) || lease_orphaned(iss, now, orphan_after) {
        iss.with_lease(None)
    } else {
        iss
    }
}

/// The store state after one sweep pass.
pub open spec fn after_sweep(s: Seq<IssueView>, now: int, orphan_after: int) -> Seq<IssueView> {
    Seq::new(s.len(), |i: int| swept_issue(s[i], now, orphan_after))
}

/// How many issues hold an expired lease.
pub open spec fn count_expired(s: Seq<IssueView>, now: int) -> int
    decreases s.len(),
{
    if s.len() == 0 {
        0
    } else {
        count_expired(s.drop_last(), now) + if lease_expired(s.last(), now) {
            1int
        } else {
            0int
        }
    }
}

/// How many issues hold an orphaned lease.
pub open spec fn count_orphaned(s: Seq<IssueView>, now: int, orphan_after: int) -> int
    decreases s.len(),
{
    if s.len() == 0 {
        0
    } else {
        count_orphaned(s.drop_last(), now, orphan_after) + if lease_orphaned(
            s.last(),
            now,
            orphan_after,
        ) {
            1int
        } else {
            0int
        }
    }
}

/// How many issues hold a stale lease.
pub open spec fn count_stale(
    s: Seq<IssueView>,
    now: int,
    stale_after: int,
    orphan_after: int,
) -> int
    decreases s.len(),
{
    if s.len() == 0 {
        0
    } else {
        count_stale(s.drop_last(), now, stale_after, orphan_after) + if lease_stale(
            s.last(),
            now,
            stale_after,
            orphan_after,
        ) {
            1int
        } else {
            0int
        }
    }
}

/// Every count is bounded by the number of issues.
proof fn lemma_counts_bounded(s: Seq<IssueView>, now: int, stale_after: int, orphan_after: int)
    ensures
        0 <= count_expired(s, now) <= s.len(),
        0 <= count_orphaned(s, now, orphan_after) <= s.len(),
        0 <= count_stale(s, now, stale_after, orphan_after) <= s.len(),
    decreases s.len(),
{
    if s.len() > 0 {
        lemma_counts_bounded(s.drop_last(), now, stale_after, orphan_after);
    }
}

/// Validates the caller-supplied sweeper configuration before any sweep
/// runs: the interval must be positive, `stale_after` positive, and
/// `orphan_after` strictly greater than `stale_after`.
pub fn validate_sweep_args(
    interval_seconds: u64,
    stale_after_minutes: i64,
    orphan_after_minutes: i64,
) -> (r: Result<(), BeadsError>)
    ensures
        (r is Ok) <==> (interval_seconds != 0 && stale_after_minutes > 0 && orphan_after_minutes
            > stale_after_minutes),
        r is Err ==> (r matches Err(e) && e is Validation),
{
    if interval_seconds == 0 {
        return Err(BeadsError::validation("interval", "interval must be a positive number of seconds"));
    }
    if stale_after_minutes <= 0 {
        return Err(
            BeadsError::validation("stale-after", "stale-after must be a positive number of minutes"),
        );
    }
    if orphan_after_minutes <= stale_after_minutes {
        return Err(
            BeadsError::validation("orphan-after", "orphan-after must be greater than stale-after"),
        );
    }
    Ok(())
}

impl Store {
    /// One sweep pass at instant `now`, with thresholds in seconds.
    ///
    /// Reclaims every expired or orphaned lease, marks stale leases
    /// without reclaiming them, and reports the exact counts of each
    /// class over the state the sweep read.
    pub fn sweep_expired_leases(
        &mut self,
        now: i64,
        stale_after_secs: i64,
        orphan_after_secs: i64,
    ) -> (r: LeaseSweepSummary)
        requires
            old(self).wf(),
            now >= 0,
        ensures
            final(self).wf(),
            final(self)@ =~= after_sweep(old(self)@, now as int, orphan_after_secs as int),
            r.expired == count_expired(old(self)@, now as int),
            r.orphaned_marked == count_orphaned(old(self)@, now as int, orphan_after_secs as int),
            r.stale_marked == count_stale(
                old(self)@,
                now as int,
                stale_after_secs as int,
                orphan_after_secs as int,
            ),
            r.reclaimed_leases == r.expired + r.orphaned_marked,
    {
        let ghost pre = self@;
        let mut expired: usize = 0;
        let mut stale_marked: usize = 0;
        let mut orphaned_marked: usize = 0;
        let n = self.issues.len();
        let mut i: usize = 0;
        while i < n
            invariant
                self.issues@.len() == n,
                n == pre.len(),
                i <= n,
                now >= 0,
                ids_unique(pre),
                forall|k: int| 0 <= k < pre.len() ==> pre[k].times_ok(),
                forall|k: int| i <= k < n ==> self@[k] == pre[k],
                forall|k: int|
                    0 <= k < i ==> self@[k] == swept_issue(
                        pre[k],
                        now as int,
                        orphan_after_secs as int,
                    ),
                expired == count_expired(pre.take(i as int), now as int),
                orphaned_marked == count_orphaned(
                    pre.take(i as int),
                    now as int,
                    orphan_after_secs as int,
                ),
                stale_marked == count_stale(
                    pre.take(i as int),
                    now as int,
                    stale_after_secs as int,
                    orphan_after_secs as int,
                ),
                expired + orphaned_marked + stale_marked <= i,
            decreases n - i,
        {
            proof {
                lemma_counts_bounded(pre.take(i as int), now as int, stale_after_secs as int,
                    orphan_after_secs as int);
            }
            let reclaim: bool;
            let mut is_stale = false;
            match &self.issues[i].lease {
                Some(l) => {
                    proof {
                        assert(self@[i as int] == self.issues@[i as int]@);
                        assert(self@[i as int].times_ok());
                        assert(self@[i as int].lease == Some(l@));
                        assert(l.heartbeat_at >= 0);
                    }
                    if now > l.expires_at {
                        reclaim = true;
                        expired = expired + 1;
                    } else if now - l.heartbeat_at > orphan_after_secs {
                        reclaim = true;
                        orphaned_marked = orphaned_marked + 1;
                    } else {
                        reclaim = false;
                        if now - l.heartbeat_at > stale_after_secs {
                            is_stale = true;
                        }
                    }
                },
                None => {
                    reclaim = false;
                },
            }
            if is_stale {
                stale_marked = stale_marked + 1;
            }
            if reclaim {
                let mut updated = crate::model::dup_issue(&self.issues[i]);
                updated.lease = None;
                self.issues.set(i, updated);
            }
            i = i + 1;
            proof {
                assert(pre.take(i as int).drop_last() =~= pre.take(i - 1));
                assert(pre.take(i as int).last() == pre[i - 1]);
            }
        }
        proof {
            assert(pre.take(n as int) =~= pre);
            assert(self@ =~= after_sweep(pre, now as int, orphan_after_secs as int));
            assert forall|k: int| 0 <= k < self@.len() implies self@[k].times_ok() by {
                assert(pre[k].times_ok());
            }
            assert forall|k: int, j: int|
                0 <= k < j < self@.len() implies self@[k].id != self@[j].id by {
                assert(pre[k].id != pre[j].id);
            }
        }
        LeaseSweepSummary {
            expired,
            stale_marked,
            orphaned_marked,
            reclaimed_leases: expired + orphaned_marked,
        }
    }
}

/// The sweep is idempotent: with no intervening claims and a fixed
/// clock, a second pass finds nothing expired and nothing orphaned, so
/// it reclaims no lease; it marks exactly the same issues stale; and it
/// leaves the store unchanged.
pub proof fn lemma_sweep_idempotent(
    s: Seq<IssueView>,
    now: int,
    stale_after: int,
    orphan_after: int,
)
    ensures
        count_expired(after_sweep(s, now, orphan_after), now) == 0,
        count_orphaned(after_sweep(s, now, orphan_after), now, orphan_after) == 0,
        count_stale(after_sweep(s, now, orphan_after), now, stale_after, orphan_after)
            == count_stale(s, now, stale_after, orphan_after),
        after_sweep(after_sweep(s, now, orphan_after), now, orphan_after) =~= after_sweep(
            s,
            now,
            orphan_after,
        ),
    decreases s.len(),
{
    if s.len() > 0 {
        lemma_sweep_idempotent(s.drop_last(), now, stale_after, orphan_after);
        assert(after_sweep(s, now, orphan_after).drop_last() =~= after_sweep(
            s.drop_last(),
            now,
            orphan_after,
        ));
        assert(after_sweep(s, now, orphan_after).last() == swept_issue(
            s.last(),
            now,
            orphan_after,
        ));
    }
}

} // verus!
