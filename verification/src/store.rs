//! The authoritative issue store and the lease protocol's atomic
//! operations on it.
//!
//! The store is the single synchronization point of the system: claim,
//! release and heartbeat are each one read-modify-write of one issue's
//! lease field group, and their contracts state the exact transition.
//! A lease is a tagged optional on the issue itself, so "no lease" can
//! never be half-populated.

use vstd::prelude::*;

use crate::error::BeadsError;
use crate::model::{dup_issue, Issue, IssueView, Lease, LeaseView};
use crate::text::{is_prefix_of, str_eq, str_starts_with};
use vstd::pervasive::VecAdditionalExecFns;

verus! {

/// No two issues share an id.
pub open spec fn ids_unique(s: Seq<IssueView>) -> bool {
    forall|i: int, j: int| 0 <= i < j < s.len() ==> s[i].id != s[j].id
}

/// Some issue in the sequence has the given id.
pub open spec fn has_id(s: Seq<IssueView>, id: Seq<char>) -> bool {
    exists|i: int| 0 <= i < s.len() && s[i].id == id
}

/// The index of the issue with the given id (unique when `ids_unique`).
pub open spec fn index_of_id(s: Seq<IssueView>, id: Seq<char>) -> int {
    choose|i: int| 0 <= i < s.len() && s[i].id == id
}

/// A live (non-expired) lease with a different token stands in the way
/// of a claim.
pub open spec fn live_lease_conflict(iss: IssueView, lease_id: Seq<char>, now: int) -> bool {
    match iss.lease {
        Some(l) => !l.is_expired(now) && l.lease_id != lease_id,
        None => false,
    }
}

/// The lease record a successful claim writes: heartbeat starts at the
/// grant instant.
pub open spec fn granted_lease(
    owner: Seq<char>,
    lease_id: Seq<char>,
    expires_at: int,
    now: int,
) -> LeaseView {
    LeaseView { lease_id, owner, expires_at, heartbeat_at: now }
}

/// A claim of `id` with token `lease_id` succeeds on this store state.
pub open spec fn claim_ok(s: Seq<IssueView>, id: Seq<char>, lease_id: Seq<char>, now: int) -> bool {
    has_id(s, id) && !live_lease_conflict(s[index_of_id(s, id)], lease_id, now)
}

/// The store state after a successful claim.
pub open spec fn after_claim(
    s: Seq<IssueView>,
    id: Seq<char>,
    owner: Seq<char>,
    lease_id: Seq<char>,
    expires_at: int,
    now: int,
) -> Seq<IssueView> {
    s.update(
        index_of_id(s, id),
        s[index_of_id(s, id)].with_lease(Some(granted_lease(owner, lease_id, expires_at, now))),
    )
}

/// A release of `id` with token `lease_id` succeeds on this store state:
/// the supplied token matches the current one.
pub open spec fn release_ok(s: Seq<IssueView>, id: Seq<char>, lease_id: Seq<char>) -> bool {
    has_id(s, id) && match s[index_of_id(s, id)].lease {
        Some(l) => l.lease_id == lease_id,
        None => false,
    }
}

/// The store state after a successful release.
pub open spec fn after_release(s: Seq<IssueView>, id: Seq<char>) -> Seq<IssueView> {
    s.update(index_of_id(s, id), s[index_of_id(s, id)].with_lease(None))
}

/// A heartbeat succeeds: the token matches and the lease has not expired.
pub open spec fn heartbeat_ok(
    s: Seq<IssueView>,
    id: Seq<char>,
    lease_id: Seq<char>,
    now: int,
) -> bool {
    has_id(s, id) && match s[index_of_id(s, id)].lease {
        Some(l) => l.lease_id == lease_id && !l.is_expired(now),
        None => false,
    }
}

/// The store state after a successful heartbeat: only `heartbeat_at`
/// advances; the token never changes on renewal.
pub open spec fn after_heartbeat(s: Seq<IssueView>, id: Seq<char>, now: int) -> Seq<IssueView> {
    s.update(
        index_of_id(s, id),
        s[index_of_id(s, id)].with_lease(
            match s[index_of_id(s, id)].lease {
                Some(l) => Some(LeaseView { heartbeat_at: now, ..l }),
                None => None,
            },
        ),
    )
}

/// The issue's content hash starts with the fragment.
pub open spec fn hash_matches(iss: IssueView, frag: Seq<char>) -> bool {
    is_prefix_of(frag, iss.content_hash)
}

/// The ids of the issues whose content hash starts with the fragment,
/// in store order.
pub open spec fn matching_ids(s: Seq<IssueView>, frag: Seq<char>) -> Seq<Seq<char>>
    decreases s.len(),
{
    if s.len() == 0 {
        Seq::empty()
    } else if hash_matches(s.last(), frag) {
        matching_ids(s.drop_last(), frag).push(s.last().id)
    } else {
        matching_ids(s.drop_last(), frag)
    }
}

/// The authoritative, in-memory issue graph.  Persistence lives outside
/// the crate; every mutation here models one store transaction.
pub struct Store {
    pub issues: Vec<Issue>,
}

impl View for Store {
    type V = Seq<IssueView>;

    open spec fn view(&self) -> Seq<IssueView> {
        Seq::new(self.issues@.len(), |i: int| self.issues@[i]@)
    }
}

impl Store {
    /// Ids are unique and all timestamps are non-negative.
    pub open spec fn wf(self) -> bool {
        &&& ids_unique(self@)
        &&& forall|i: int| 0 <= i < self@.len() ==> self@[i].times_ok()
    }

    /// An empty store.
    pub fn new() -> (r: Store)
        ensures
            r@ =~= Seq::<IssueView>::empty(),
            r.wf(),
    {
        Store { issues: Vec::new() }
    }

    /// How many issues the store holds.
    pub fn len(&self) -> (r: usize)
        ensures
            r == self@.len(),
    {
        self.issues.len()
    }

    /// The index of the issue with the given id, if any.
    fn position_of(&self, id: &str) -> (r: Option<usize>)
        ensures
            match r {
                Some(i) => i < self@.len() && self@[i as int].id == id@,
                None => !has_id(self@, id@),
            },
    {
        let mut i: usize = 0;
        while i < self.issues.len()
            invariant
                i <= self.issues@.len(),
                forall|j: int| 0 <= j < i ==> self@[j].id != id@,
            decreases self.issues@.len() - i,
        {
            if str_eq(self.issues[i].id.as_str(), id) {
                return Some(i);
            }
            i = i + 1;
        }
        None
    }

    /// Under unique ids, a found position is the index of the id.
    proof fn lemma_position_is_index(&self, i: int, id: Seq<char>)
        requires
            ids_unique(self@),
            0 <= i < self@.len(),
            self@[i].id == id,
        ensures
            has_id(self@, id),
            index_of_id(self@, id) == i,
    {
        assert(has_id(self@, id));
        let j = index_of_id(self@, id);
        assert(0 <= j < self@.len() && self@[j].id == id);
        if i < j {
            assert(self@[i].id != self@[j].id);
        } else if j < i {
            assert(self@[j].id != self@[i].id);
        }
    }

    /// Whether an issue with this id exists.
    pub fn id_exists(&self, id: &str) -> (r: bool)
        ensures
            r == has_id(self@, id@),
    {
        match self.position_of(id) {
            Some(i) => {
                proof {
                    assert(has_id(self@, id@));
                }
                true
            },
            None => false,
        }
    }

    /// A copy of the issue with this id, if present.
    pub fn get_issue(&self, id: &str) -> (r: Option<Issue>)
        requires
            self.wf(),
        ensures
            match r {
                Some(iss) => has_id(self@, id@) && iss@ == self@[index_of_id(self@, id@)],
                None => !has_id(self@, id@),
            },
    {
        match self.position_of(id) {
            Some(i) => {
                proof {
                    self.lemma_position_is_index(i as int, id@);
                }
                Some(dup_issue(&self.issues[i]))
            },
            None => None,
        }
    }

    /// Adds a new issue; rejects a duplicate id before any mutation.
    pub fn add_issue(&mut self, issue: Issue) -> (r: Result<(), BeadsError>)
        requires
            old(self).wf(),
            issue@.times_ok(),
        ensures
            final(self).wf(),
            (r is Ok) <==> !has_id(old(self)@, issue@.id),
            r is Ok ==> final(self)@ =~= old(self)@.push(issue@),
            r is Err ==> final(self)@ == old(self)@ && (r matches Err(e) && e is Validation),
    {
        if self.id_exists(issue.id.as_str()) {
            return Err(BeadsError::validation("id", "an issue with this id already exists"));
        }
        self.issues.push(issue);
        proof {
            assert(self@ =~= old(self)@.push(issue@));
            assert forall|i: int, j: int|
                0 <= i < j < self@.len() implies self@[i].id != self@[j].id by {
                if j < old(self)@.len() {
                    assert(old(self)@[i].id != old(self)@[j].id);
                } else {
                    assert(self@[j] == issue@);
                    assert(old(self)@[i].id != issue@.id);
                }
            }
        }
        Ok(())
    }

    /// Atomically claims the issue: writes the lease field group iff no
    /// live lease with a different token is present.  A renewal (same
    /// token) or a claim over an expired lease succeeds; exactly the
    /// conflicting case fails with `AlreadyClaimed`.
    pub fn claim_issue(
        &mut self,
        id: &str,
        owner: &str,
        lease_id: &str,
        expires_at: i64,
        now: i64,
    ) -> (r: Result<(), BeadsError>)
        requires
            old(self).wf(),
            expires_at >= 0,
            now >= 0,
        ensures
            final(self).wf(),
            (r is Ok) <==> claim_ok(old(self)@, id@, lease_id@, now as int),
            r is Ok ==> final(self)@ =~= after_claim(
                old(self)@,
                id@,
                owner@,
                lease_id@,
                expires_at as int,
                now as int,
            ),
            r is Err ==> final(self)@ == old(self)@,
            !has_id(old(self)@, id@) ==> (r matches Err(e) && e matches BeadsError::IssueNotFound {
                id: eid,
            } && eid@ == id@),
            has_id(old(self)@, id@) && live_lease_conflict(
                old(self)@[index_of_id(old(self)@, id@)],
                lease_id@,
                now as int,
            ) ==> (r matches Err(e) && e matches BeadsError::AlreadyClaimed { id: eid } && eid@
                == id@),
    {
        let i = match self.position_of(id) {
            Some(i) => i,
            None => {
                return Err(BeadsError::IssueNotFound { id: id.to_owned() });
            },
        };
        proof {
            self.lemma_position_is_index(i as int, id@);
        }
        let conflict = match &self.issues[i].lease {
            Some(l) => !l.is_expired(now) && !str_eq(l.lease_id.as_str(), lease_id),
            None => false,
        };
        if conflict {
            return Err(BeadsError::AlreadyClaimed { id: id.to_owned() });
        }
        let mut updated = dup_issue(&self.issues[i]);
        updated.lease = Some(
            Lease {
                lease_id: lease_id.to_owned(),
                owner: owner.to_owned(),
                expires_at,
                heartbeat_at: now,
            },
        );
        self.issues.set(i, updated);
        proof {
            assert(self@ =~= after_claim(
                old(self)@,
                id@,
                owner@,
                lease_id@,
                expires_at as int,
                now as int,
            ));
            lemma_update_keeps_wf(
                old(self)@,
                self@,
                index_of_id(old(self)@, id@),
            );
        }
        Ok(())
    }

    /// Clears the lease iff the supplied token matches the current one;
    /// otherwise fails with `LeaseMismatch`, so a caller can never
    /// release a lease it no longer holds.
    pub fn release_issue(&mut self, id: &str, lease_id: &str) -> (r: Result<(), BeadsError>)
        requires
            old(self).wf(),
        ensures
            final(self).wf(),
            (r is Ok) <==> release_ok(old(self)@, id@, lease_id@),
            r is Ok ==> final(self)@ =~= after_release(old(self)@, id@),
            r is Err ==> final(self)@ == old(self)@,
            !has_id(old(self)@, id@) ==> (r matches Err(e) && e matches BeadsError::IssueNotFound {
                id: eid,
            } && eid@ == id@),
            has_id(old(self)@, id@) && !release_ok(old(self)@, id@, lease_id@) ==> (r matches Err(e)
                && e matches BeadsError::LeaseMismatch { id: eid } && eid@ == id@),
    {
        let i = match self.position_of(id) {
            Some(i) => i,
            None => {
                return Err(BeadsError::IssueNotFound { id: id.to_owned() });
            },
        };
        proof {
            self.lemma_position_is_index(i as int, id@);
        }
        let matches_token = match &self.issues[i].lease {
            Some(l) => str_eq(l.lease_id.as_str(), lease_id),
            None => false,
        };
        if !matches_token {
            return Err(BeadsError::LeaseMismatch { id: id.to_owned() });
        }
        let mut updated = dup_issue(&self.issues[i]);
        updated.lease = None;
        self.issues.set(i, updated);
        proof {
            assert(self@ =~= after_release(old(self)@, id@));
            lemma_update_keeps_wf(
                old(self)@,
                self@,
                index_of_id(old(self)@, id@),
            );
        }
        Ok(())
    }

    /// Advances `heartbeat_at` iff the token matches and the lease has
    /// not expired; the token itself never changes on renewal.
    pub fn heartbeat(&mut self, id: &str, lease_id: &str, now: i64) -> (r: Result<
        (),
        BeadsError,
    >)
        requires
            old(self).wf(),
            now >= 0,
        ensures
            final(self).wf(),
            (r is Ok) <==> heartbeat_ok(old(self)@, id@, lease_id@, now as int),
            r is Ok ==> final(self)@ =~= after_heartbeat(old(self)@, id@, now as int),
            r is Err ==> final(self)@ == old(self)@,
            !has_id(old(self)@, id@) ==> (r matches Err(e) && e matches BeadsError::IssueNotFound {
                id: eid,
            } && eid@ == id@),
            has_id(old(self)@, id@) && (match old(self)@[index_of_id(old(self)@, id@)].lease {
                Some(l) => l.lease_id != lease_id@,
                None => true,
            }) ==> (r matches Err(e) && e matches BeadsError::LeaseMismatch { id: eid } && eid@
                == id@),
            has_id(old(self)@, id@) && (match old(self)@[index_of_id(old(self)@, id@)].lease {
                Some(l) => l.lease_id == lease_id@ && l.is_expired(now as int),
                None => false,
            }) ==> (r matches Err(e) && e matches BeadsError::LeaseExpired { id: eid } && eid@
                == id@),
    {
        let i = match self.position_of(id) {
            Some(i) => i,
            None => {
                return Err(BeadsError::IssueNotFound { id: id.to_owned() });
            },
        };
        proof {
            self.lemma_position_is_index(i as int, id@);
        }
        let matches_token = match &self.issues[i].lease {
            Some(l) => str_eq(l.lease_id.as_str(), lease_id),
            None => false,
        };
        if !matches_token {
            return Err(BeadsError::LeaseMismatch { id: id.to_owned() });
        }
        let expired = match &self.issues[i].lease {
            Some(l) => l.is_expired(now),
            None => false,
        };
        if expired {
            return Err(BeadsError::LeaseExpired { id: id.to_owned() });
        }
        let mut updated = dup_issue(&self.issues[i]);
        let new_lease = match &updated.lease {
            Some(l) => Some(
                Lease {
                    lease_id: l.lease_id.clone(),
                    owner: l.owner.clone(),
                    expires_at: l.expires_at,
                    heartbeat_at: now,
                },
            ),
            None => None,
        };
        updated.lease = new_lease;
        self.issues.set(i, updated);
        proof {
            assert(self@ =~= after_heartbeat(old(self)@, id@, now as int));
            lemma_update_keeps_wf(
                old(self)@,
                self@,
                index_of_id(old(self)@, id@),
            );
        }
        Ok(())
    }

    /// The status of the issue with this id, if present.
    pub fn issue_status(&self, id: &str) -> (r: Option<crate::model::Status>)
        requires
            self.wf(),
        ensures
            match r {
                Some(st) => has_id(self@, id@) && st == self@[index_of_id(self@, id@)].status,
                None => !has_id(self@, id@),
            },
    {
        match self.position_of(id) {
            Some(i) => {
                proof {
                    self.lemma_position_is_index(i as int, id@);
                }
                Some(self.issues[i].status)
            },
            None => None,
        }
    }

    /// All ids whose issue's content hash starts with the fragment, in
    /// store order.
    pub fn find_ids_by_hash(&self, fragment: &str) -> (r: Vec<String>)
        ensures
            r.deep_view() == matching_ids(self@, fragment@),
    {
        let mut out: Vec<String> = Vec::new();
        let mut i: usize = 0;
        while i < self.issues.len()
            invariant
                i <= self.issues@.len(),
                out.deep_view() == matching_ids(self@.take(i as int), fragment@),
            decreases self.issues@.len() - i,
        {
            if str_starts_with(self.issues[i].content_hash.as_str(), fragment) {
                out.push(self.issues[i].id.clone());
            }
            i = i + 1;
            proof {
                assert(self@.take(i as int).drop_last() =~= self@.take(i - 1));
                assert(self@.take(i as int).last() == self@[i - 1]);
                assert(out.deep_view() =~= matching_ids(self@.take(i as int), fragment@));
            }
        }
        proof {
            assert(self@.take(self@.len() as int) =~= self@);
        }
        out
    }
}

/// An update that keeps the id and non-negative timestamps keeps the
/// store well-formed.
proof fn lemma_update_keeps_wf(pre: Seq<IssueView>, post: Seq<IssueView>, idx: int)
    requires
        ids_unique(pre),
        forall|i: int| 0 <= i < pre.len() ==> pre[i].times_ok(),
        0 <= idx < pre.len(),
        post =~= pre.update(idx, post[idx]),
        post.len() == pre.len(),
        post[idx].id == pre[idx].id,
        post[idx].times_ok(),
    ensures
        ids_unique(post),
        forall|i: int| 0 <= i < post.len() ==> post[i].times_ok(),
{
    assert forall|i: int, j: int| 0 <= i < j < post.len() implies post[i].id != post[j].id by {
        assert(pre[i].id != pre[j].id);
    }
}

/// The index of an id survives an update that keeps that id in place.
pub proof fn lemma_index_of_update(s: Seq<IssueView>, idx: int, x: IssueView)
    requires
        ids_unique(s),
        0 <= idx < s.len(),
        x.id == s[idx].id,
    ensures
        has_id(s.update(idx, x), s[idx].id),
        index_of_id(s.update(idx, x), s[idx].id) == idx,
{
    let post = s.update(idx, x);
    assert(post[idx].id == s[idx].id);
    assert(has_id(post, s[idx].id));
    let j = index_of_id(post, s[idx].id);
    assert(0 <= j < post.len() && post[j].id == s[idx].id);
    if j < idx {
        assert(post[j] == s[j]);
        assert(s[j].id != s[idx].id);
    } else if idx < j {
        assert(post[j] == s[j]);
        assert(s[idx].id != s[j].id);
    }
}

/// An update that keeps the id at its index leaves every other id's
/// index and issue untouched.
pub proof fn lemma_update_preserves_others(
    s: Seq<IssueView>,
    idx: int,
    x: IssueView,
    other: Seq<char>,
)
    requires
        ids_unique(s),
        0 <= idx < s.len(),
        x.id == s[idx].id,
        has_id(s, other),
        other != s[idx].id,
    ensures
        has_id(s.update(idx, x), other),
        index_of_id(s.update(idx, x), other) == index_of_id(s, other),
        s.update(idx, x)[index_of_id(s, other)] == s[index_of_id(s, other)],
{
    let post = s.update(idx, x);
    let i = index_of_id(s, other);
    assert(0 <= i < s.len() && s[i].id == other);
    assert(i != idx);
    assert(post[i] == s[i]);
    assert(has_id(post, other));
    let j = index_of_id(post, other);
    assert(0 <= j < post.len() && post[j].id == other);
    if j != i {
        if j == idx {
            assert(post[j].id == x.id);
        } else {
            assert(post[j] == s[j]);
            if j < i {
                assert(s[j].id != s[i].id);
            } else {
                assert(s[i].id != s[j].id);
            }
        }
    }
}

/// A claim on an issue with no lease always succeeds, and a second claim
/// on the same issue with a different token, made before the first lease
/// expires, fails with a conflict: of two concurrent claimants, at most
/// one wins.
pub proof fn lemma_claim_exclusive(
    s: Seq<IssueView>,
    id: Seq<char>,
    owner1: Seq<char>,
    lease1: Seq<char>,
    expires1: int,
    now1: int,
    lease2: Seq<char>,
    now2: int,
)
    requires
        ids_unique(s),
        has_id(s, id),
        s[index_of_id(s, id)].lease is None,
        lease2 != lease1,
        now2 <= expires1,
    ensures
        claim_ok(s, id, lease1, now1),
        !claim_ok(after_claim(s, id, owner1, lease1, expires1, now1), id, lease2, now2),
{
    let idx = index_of_id(s, id);
    let post = after_claim(s, id, owner1, lease1, expires1, now1);
    lemma_index_of_update(
        s,
        idx,
        s[idx].with_lease(Some(granted_lease(owner1, lease1, expires1, now1))),
    );
    assert(post[idx].lease == Some(granted_lease(owner1, lease1, expires1, now1)));
    assert(live_lease_conflict(post[idx], lease2, now2));
}

/// After a release with the matching token, a claim of the same issue
/// with any token succeeds, and the lease it grants carries the new
/// token — different from the released one whenever a fresh token is
/// supplied.
pub proof fn lemma_release_then_claim(
    s: Seq<IssueView>,
    id: Seq<char>,
    released: Seq<char>,
    owner: Seq<char>,
    fresh: Seq<char>,
    expires: int,
    now: int,
)
    requires
        ids_unique(s),
        release_ok(s, id, released),
        fresh != released,
    ensures
        claim_ok(after_release(s, id), id, fresh, now),
        after_claim(after_release(s, id), id, owner, fresh, expires, now)[index_of_id(
            s,
            id,
        )].lease == Some(granted_lease(owner, fresh, expires, now)),
        granted_lease(owner, fresh, expires, now).lease_id != released,
{
    let idx = index_of_id(s, id);
    let rel = after_release(s, id);
    lemma_index_of_update(s, idx, s[idx].with_lease(None));
    assert(rel[idx].lease is None);
    assert(claim_ok(rel, id, fresh, now));
    assert forall|i: int, j: int| 0 <= i < j < rel.len() implies rel[i].id != rel[j].id by {
        assert(s[i].id != s[j].id);
    }
    lemma_index_of_update(
        rel,
        idx,
        rel[idx].with_lease(Some(granted_lease(owner, fresh, expires, now))),
    );
    assert(after_claim(rel, id, owner, fresh, expires, now)[idx].lease == Some(
        granted_lease(owner, fresh, expires, now),
    ));
}

} // verus!
