//! The issue graph's data model: issues, leases, dependency references.

use vstd::prelude::*;

verus! {

/// Workflow status of an issue.  A dependency only stops blocking once
/// the issue it points at reaches a resolved status.
#[derive(Clone, Copy, PartialEq, Eq, Structural, Debug)]
pub enum Status {
    Open,
    InProgress,
    Blocked,
    Closed,
}

impl Status {
    /// True for statuses that no longer block dependants.
    pub fn is_resolved(&self) -> (r: bool)
        ensures
            r == self.spec_is_resolved(),
    {
        match self {
            Status::Closed => true,
            _ => false,
        }
    }

    /// A status stops blocking dependants exactly when the issue is closed.
    pub open spec fn spec_is_resolved(self) -> bool {
        self is Closed
    }
}

/// Kind of work an issue describes; used only for filtering.
#[derive(Clone, Copy, PartialEq, Eq, Structural, Debug)]
pub enum IssueType {
    Bug,
    Feature,
    Task,
    Epic,
    Chore,
}

/// Numeric priority: 0 is the most urgent band.
#[derive(Clone, Copy, PartialEq, Eq, Structural, Debug)]
pub struct Priority(pub u8);

/// Ownership claim on one issue, held by at most one actor at a time.
///
/// `lease_id` is an opaque token naming this specific grant, not the
/// owner.  `expires_at` is the absolute instant after which the lease is
/// void; `heartbeat_at` is the owner's last liveness signal, initialized
/// to the grant instant.
#[derive(Clone, Debug)]
pub struct Lease {
    pub lease_id: String,
    pub owner: String,
    pub expires_at: i64,
    pub heartbeat_at: i64,
}

impl Lease {
    /// A lease is void once the clock has passed `expires_at`.
    pub open spec fn spec_is_expired(self, now: i64) -> bool {
        now > self.expires_at
    }

    /// True once the clock has passed `expires_at`.
    pub fn is_expired(&self, now: i64) -> (r: bool)
        ensures
            r == self.spec_is_expired(now),
    {
        now > self.expires_at
    }
}

/// A dependency edge that crosses into another project's store, recorded
/// as a qualified reference.  Read-only for this crate: it is only used
/// to decide readiness.
#[derive(Clone, Debug)]
pub struct ExternalRef {
    pub store_path: String,
    pub id: String,
}

/// Mathematical model of a [`Lease`].
#[verifier::ext_equal]
pub ghost struct LeaseView {
    pub lease_id: Seq<char>,
    pub owner: Seq<char>,
    pub expires_at: int,
    pub heartbeat_at: int,
}

impl View for Lease {
    type V = LeaseView;

    open spec fn view(&self) -> LeaseView {
        LeaseView {
            lease_id: self.lease_id@,
            owner: self.owner@,
            expires_at: self.expires_at as int,
            heartbeat_at: self.heartbeat_at as int,
        }
    }
}

impl LeaseView {
    /// A lease is void once the clock has passed `expires_at`.
    pub open spec fn is_expired(self, now: int) -> bool {
        now > self.expires_at
    }
}

/// Mathematical model of an [`ExternalRef`].
#[verifier::ext_equal]
pub ghost struct ExternalRefView {
    pub store_path: Seq<char>,
    pub id: Seq<char>,
}

impl View for ExternalRef {
    type V = ExternalRefView;

    open spec fn view(&self) -> ExternalRefView {
        ExternalRefView { store_path: self.store_path@, id: self.id@ }
    }
}

/// One unit of work in the issue graph.
///
/// `dependencies` holds ids of issues in the same store that must be
/// resolved first; `external_dependencies` point into other stores.
/// `deferred`, `pinned` and `ephemeral` each exclude the issue from the
/// ready queue independently of blocking state.  `content_hash` lets a
/// caller name the issue by a hash fragment instead of its id.
#[derive(Clone, Debug)]
pub struct Issue {
    pub id: String,
    pub title: String,
    pub status: Status,
    pub issue_type: IssueType,
    pub priority: Priority,
    pub assignee: Option<String>,
    pub labels: Vec<String>,
    pub acceptance_criteria: Option<String>,
    pub content_hash: String,
    pub dependencies: Vec<String>,
    pub external_dependencies: Vec<ExternalRef>,
    pub deferred: bool,
    pub pinned: bool,
    pub ephemeral: bool,
    pub created_at: i64,
    pub lease: Option<Lease>,
}

/// Mathematical model of an [`Issue`].
#[verifier::ext_equal]
pub ghost struct IssueView {
    pub id: Seq<char>,
    pub title: Seq<char>,
    pub status: Status,
    pub issue_type: IssueType,
    pub priority: int,
    pub assignee: Option<Seq<char>>,
    pub labels: Seq<Seq<char>>,
    pub acceptance_criteria: Option<Seq<char>>,
    pub content_hash: Seq<char>,
    pub dependencies: Seq<Seq<char>>,
    pub external_dependencies: Seq<ExternalRefView>,
    pub deferred: bool,
    pub pinned: bool,
    pub ephemeral: bool,
    pub created_at: int,
    pub lease: Option<LeaseView>,
}

impl View for Issue {
    type V = IssueView;

    open spec fn view(&self) -> IssueView {
        IssueView {
            id: self.id@,
            title: self.title@,
            status: self.status,
            issue_type: self.issue_type,
            priority: self.priority.0 as int,
            assignee: match self.assignee {
                Some(a) => Some(a@),
                None => None,
            },
            labels: self.labels.deep_view(),
            acceptance_criteria: match self.acceptance_criteria {
                Some(a) => Some(a@),
                None => None,
            },
            content_hash: self.content_hash@,
            dependencies: self.dependencies.deep_view(),
            external_dependencies: Seq::new(
                self.external_dependencies@.len(),
                |i: int| self.external_dependencies@[i]@,
            ),
            deferred: self.deferred,
            pinned: self.pinned,
            ephemeral: self.ephemeral,
            created_at: self.created_at as int,
            lease: match self.lease {
                Some(l) => Some(l@),
                None => None,
            },
        }
    }
}

impl IssueView {
    /// Timestamps the lease protocol works with never precede the epoch.
    pub open spec fn times_ok(self) -> bool {
        &&& self.created_at >= 0
        &&& match self.lease {
            Some(l) => l.expires_at >= 0 && l.heartbeat_at >= 0,
            None => true,
        }
    }

    /// The same issue with another lease field group.
    pub open spec fn with_lease(self, lease: Option<LeaseView>) -> IssueView {
        IssueView { lease, ..self }
    }
}

/// Duplicates an optional string, preserving its value.
fn dup_opt_string(s: &Option<String>) -> (r: Option<String>)
    ensures
        r == *s,
{
    match s {
        Some(v) => Some(v.clone()),
        None => None,
    }
}

/// Duplicates a vector of strings, preserving its contents.
pub fn dup_vec_string(v: &Vec<String>) -> (r: Vec<String>)
    ensures
        r.deep_view() == v.deep_view(),
        r@.len() == v@.len(),
{
    let r = v.clone();
    proof {
        assert(r@ =~= v@);
        assert(r.deep_view() =~= v.deep_view());
    }
    r
}

/// Duplicates a lease record, preserving its model.
fn dup_lease(l: &Lease) -> (r: Lease)
    ensures
        r@ == l@,
{
    Lease {
        lease_id: l.lease_id.clone(),
        owner: l.owner.clone(),
        expires_at: l.expires_at,
        heartbeat_at: l.heartbeat_at,
    }
}

/// Duplicates an issue, preserving its model.
pub fn dup_issue(iss: &Issue) -> (r: Issue)
    ensures
        r@ == iss@,
{
    let mut ext: Vec<ExternalRef> = Vec::new();
    let mut i: usize = 0;
    while i < iss.external_dependencies.len()
        invariant
            i <= iss.external_dependencies@.len(),
            ext@.len() == i,
            forall|j: int| 0 <= j < i ==> ext@[j]@ == iss.external_dependencies@[j]@,
        decreases iss.external_dependencies@.len() - i,
    {
        let e = &iss.external_dependencies[i];
        ext.push(ExternalRef { store_path: e.store_path.clone(), id: e.id.clone() });
        i = i + 1;
    }
    let lease = match &iss.lease {
        Some(l) => Some(dup_lease(l)),
        None => None,
    };
    let r = Issue {
        id: iss.id.clone(),
        title: iss.title.clone(),
        status: iss.status,
        issue_type: iss.issue_type,
        priority: iss.priority,
        assignee: dup_opt_string(&iss.assignee),
        labels: dup_vec_string(&iss.labels),
        acceptance_criteria: dup_opt_string(&iss.acceptance_criteria),
        content_hash: iss.content_hash.clone(),
        dependencies: dup_vec_string(&iss.dependencies),
        external_dependencies: ext,
        deferred: iss.deferred,
        pinned: iss.pinned,
        ephemeral: iss.ephemeral,
        created_at: iss.created_at,
        lease,
    };
    proof {
        assert(Seq::new(r.external_dependencies@.len(), |i: int| r.external_dependencies@[i]@)
            =~= Seq::new(
            iss.external_dependencies@.len(),
            |i: int| iss.external_dependencies@[i]@,
        ));
        assert(r@ =~= iss@);
    }
    r
}

} // verus!
