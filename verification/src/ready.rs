//! The ready-queue scheduler: which issues are eligible for work, in
//! what order.
//!
//! An issue is ready when it is not deferred (unless the caller asks for
//! deferred issues), not pinned, not ephemeral, carries no live lease,
//! every local dependency points at a resolved issue, and it matches the
//! caller's filters.  Cross-store blockers are resolved afterwards, and
//! a caller limit is applied strictly last, so a requested count always
//! holds genuinely ready issues.
//!
//! Sort policies are total orders with a deterministic tie-break by id:
//! `Priority` orders by ascending priority band; `Oldest` by ascending
//! creation time; `Hybrid` by priority band first and, within a band, by
//! creation time ascending, so priority always dominates recency.

use vstd::prelude::*;

use crate::error::BeadsError;
use crate::model::{dup_issue, Issue, IssueType, IssueView, Priority};
use crate::store::{has_id, index_of_id, Store};
use crate::text::{lex_le, lex_lt, lemma_lex_lt_total, lemma_lex_lt_transitive, str_eq};

verus! {

/// How the ready queue is ordered.
#[derive(Clone, Copy, PartialEq, Eq, Structural, Debug)]
pub enum ReadySortPolicy {
    Hybrid,
    Priority,
    Oldest,
}

/// Caller-supplied filters: a pure specification of which issues to
/// return.  Never persisted.
pub struct ReadyFilters {
    pub assignee: Option<String>,
    pub unassigned: bool,
    pub labels_and: Vec<String>,
    pub labels_or: Vec<String>,
    pub types: Option<Vec<IssueType>>,
    pub priorities: Option<Vec<Priority>>,
    pub include_deferred: bool,
    pub limit: Option<usize>,
}

/// A read-only view of one cross-store reference's resolution status.
/// A reference that appears in no such record — an unreachable store —
/// counts as unresolved: missed work is preferred over duplicated work.
pub struct ExternalStatus {
    pub store_path: String,
    pub id: String,
    pub resolved: bool,
}

/// The local dependency `dep` is satisfied: it names an issue of this
/// store whose status is resolved.
pub open spec fn dep_resolved(s: Seq<IssueView>, dep: Seq<char>) -> bool {
    has_id(s, dep) && s[index_of_id(s, dep)].status.spec_is_resolved()
}

/// Every local dependency of the issue is satisfied.
pub open spec fn unblocked_local(s: Seq<IssueView>, iss: IssueView) -> bool {
    forall|d: int|
        0 <= d < iss.dependencies.len() ==> dep_resolved(s, #[trigger] iss.dependencies[d])
}

/// Some record reports this cross-store reference as resolved.
pub open spec fn ext_resolved(ext: Seq<ExternalStatus>, store_path: Seq<char>, id: Seq<char>) -> bool {
    exists|i: int|
        0 <= i < ext.len() && (#[trigger] ext[i]).store_path@ == store_path && ext[i].id@ == id
            && ext[i].resolved
}

/// Every cross-store dependency of the issue is reported resolved.
pub open spec fn unblocked_external(ext: Seq<ExternalStatus>, iss: IssueView) -> bool {
    forall|d: int|
        0 <= d < iss.external_dependencies.len() ==> ext_resolved(
            ext,
            (#[trigger] iss.external_dependencies[d]).store_path,
            iss.external_dependencies[d].id,
        )
}

/// The issue matches every caller filter.
pub open spec fn matches_filters(f: ReadyFilters, iss: IssueView) -> bool {
    &&& (match f.assignee {
        Some(a) => iss.assignee == Some(a@),
        None => true,
    })
    &&& (f.unassigned ==> iss.assignee is None)
    &&& (forall|i: int|
        0 <= i < f.labels_and.deep_view().len() ==> iss.labels.contains(
            #[trigger] f.labels_and.deep_view()[i],
        ))
    &&& (f.labels_or.deep_view().len() > 0 ==> exists|i: int|
        0 <= i < f.labels_or.deep_view().len() && iss.labels.contains(
            #[trigger] f.labels_or.deep_view()[i],
        ))
    &&& (match f.types {
        Some(ts) => ts@.contains(iss.issue_type),
        None => true,
    })
    &&& (match f.priorities {
        Some(ps) => exists|i: int| 0 <= i < ps@.len() && (#[trigger] ps@[i]).0 as int == iss.priority,
        None => true,
    })
}

/// The issue carries no live lease at `now`: unleased or expired.
pub open spec fn lease_free(iss: IssueView, now: int) -> bool {
    match iss.lease {
        Some(l) => l.is_expired(now),
        None => true,
    }
}

/// The base eligibility predicate, before cross-store blockers: flags,
/// local blocking, lease state and caller filters.
pub open spec fn is_ready(s: Seq<IssueView>, iss: IssueView, f: ReadyFilters, now: int) -> bool {
    &&& (!iss.deferred || f.include_deferred)
    &&& !iss.pinned
    &&& !iss.ephemeral
    &&& lease_free(iss, now)
    &&& unblocked_local(s, iss)
    &&& matches_filters(f, iss)
}

/// The eligible issues of `scan`, in order, judged against store state
/// `s`.
pub open spec fn ready_issues(
    s: Seq<IssueView>,
    scan: Seq<IssueView>,
    f: ReadyFilters,
    now: int,
) -> Seq<IssueView>
    decreases scan.len(),
{
    if scan.len() == 0 {
        Seq::empty()
    } else if is_ready(s, scan.last(), f, now) {
        ready_issues(s, scan.drop_last(), f, now).push(scan.last())
    } else {
        ready_issues(s, scan.drop_last(), f, now)
    }
}

/// Membership in the eligible sequence is exactly scan membership plus
/// eligibility.
pub proof fn lemma_ready_issues_membership(
    s: Seq<IssueView>,
    scan: Seq<IssueView>,
    f: ReadyFilters,
    now: int,
    x: IssueView,
)
    ensures
        ready_issues(s, scan, f, now).contains(x) <==> (scan.contains(x) && is_ready(s, x, f, now)),
    decreases scan.len(),
{
    if scan.len() > 0 {
        lemma_ready_issues_membership(s, scan.drop_last(), f, now, x);
        assert(scan.contains(x) <==> (scan.drop_last().contains(x) || scan.last() == x)) by {
            if scan.contains(x) {
                let i = choose|i: int| 0 <= i < scan.len() && scan[i] == x;
                if i < scan.len() - 1 {
                    assert(scan.drop_last()[i] == x);
                }
            }
            if scan.drop_last().contains(x) {
                let i = choose|i: int| 0 <= i < scan.drop_last().len() && scan.drop_last()[i] == x;
                assert(scan[i] == x);
            }
        }
        if is_ready(s, scan.last(), f, now) {
            let pre = ready_issues(s, scan.drop_last(), f, now);
            assert(ready_issues(s, scan, f, now) == pre.push(scan.last()));
            assert(pre.push(scan.last()).contains(x) <==> (pre.contains(x) || scan.last() == x))
                by {
                if pre.push(scan.last()).contains(x) {
                    let i = choose|i: int|
                        0 <= i < pre.push(scan.last()).len() && pre.push(scan.last())[i] == x;
                    if i < pre.len() {
                        assert(pre[i] == x);
                    }
                }
                if pre.contains(x) {
                    let i = choose|i: int| 0 <= i < pre.len() && pre[i] == x;
                    assert(pre.push(scan.last())[i] == x);
                }
                assert(pre.push(scan.last())[pre.len() as int] == scan.last());
            }
        }
    }
}

/// The order a sort policy induces: a total order, transitive, with a
/// tie-break by id ascending.
pub open spec fn sort_le(policy: ReadySortPolicy, a: IssueView, b: IssueView) -> bool {
    match policy {
        ReadySortPolicy::Priority => a.priority < b.priority || (a.priority == b.priority
            && lex_le(a.id, b.id)),
        ReadySortPolicy::Oldest => a.created_at < b.created_at || (a.created_at == b.created_at
            && lex_le(a.id, b.id)),
        ReadySortPolicy::Hybrid => a.priority < b.priority || (a.priority == b.priority && (
        a.created_at < b.created_at || (a.created_at == b.created_at && lex_le(a.id, b.id)))),
    }
}

/// Any two issues are ordered one way or the other by every policy.
pub proof fn lemma_sort_le_total(policy: ReadySortPolicy, a: IssueView, b: IssueView)
    ensures
        sort_le(policy, a, b) || sort_le(policy, b, a),
{
    lemma_lex_lt_total(a.id, b.id);
}

/// Every policy's order is transitive.
pub proof fn lemma_sort_le_transitive(
    policy: ReadySortPolicy,
    a: IssueView,
    b: IssueView,
    c: IssueView,
)
    requires
        sort_le(policy, a, b),
        sort_le(policy, b, c),
    ensures
        sort_le(policy, a, c),
{
    if lex_lt(a.id, b.id) && lex_lt(b.id, c.id) {
        lemma_lex_lt_transitive(a.id, b.id, c.id);
    }
}

/// The sequence of issue models behind a vector of issues.
pub open spec fn views_of(v: Seq<Issue>) -> Seq<IssueView> {
    Seq::new(v.len(), |i: int| v[i]@)
}

/// The sequence is ordered by the policy.
pub open spec fn sorted_by_policy(s: Seq<IssueView>, policy: ReadySortPolicy) -> bool {
    forall|i: int, j: int| 0 <= i < j < s.len() ==> sort_le(policy, #[trigger] s[i], #[trigger] s[j])
}

/// Whether `a` comes no later than `b` under the policy.
fn le_exec(policy: ReadySortPolicy, a: &Issue, b: &Issue) -> (r: bool)
    ensures
        r == sort_le(policy, a@, b@),
{
    let id_le = crate::text::str_lt(a.id.as_str(), b.id.as_str()) || str_eq(
        a.id.as_str(),
        b.id.as_str(),
    );
    match policy {
        ReadySortPolicy::Priority => a.priority.0 < b.priority.0 || (a.priority.0 == b.priority.0
            && id_le),
        ReadySortPolicy::Oldest => a.created_at < b.created_at || (a.created_at == b.created_at
            && id_le),
        ReadySortPolicy::Hybrid => a.priority.0 < b.priority.0 || (a.priority.0 == b.priority.0 && (
        a.created_at < b.created_at || (a.created_at == b.created_at && id_le))),
    }
}

/// Sorts issues by the policy: the result is ordered and holds exactly
/// the given issues.
pub fn sort_ready(v: Vec<Issue>, policy: ReadySortPolicy) -> (r: Vec<Issue>)
    ensures
        r@.len() == v@.len(),
        views_of(r@).to_multiset() == views_of(v@).to_multiset(),
        sorted_by_policy(views_of(r@), policy),
{
    broadcast use vstd::seq_lib::group_to_multiset_ensures;

    let mut out: Vec<Issue> = Vec::new();
    let mut i: usize = 0;
    while i < v.len()
        invariant
            i <= v@.len(),
            out@.len() == i,
            views_of(out@).to_multiset() == views_of(v@.take(i as int)).to_multiset(),
            sorted_by_policy(views_of(out@), policy),
        decreases v@.len() - i,
    {
        let x = dup_issue(&v[i]);
        let ghost old_out = out@;
        // find the first position whose element must come after x
        let mut p: usize = 0;
        while p < out.len() && le_exec(policy, &out[p], &x)
            invariant
                p <= out@.len(),
                forall|j: int| 0 <= j < p ==> sort_le(policy, views_of(out@)[j], x@),
                out@ == old_out,
            decreases out@.len() - p,
        {
            p = p + 1;
        }
        out.insert(p, x);
        i = i + 1;
        proof {
            let ovs = views_of(old_out);
            let nvs = views_of(out@);
            assert(nvs =~= ovs.insert(p as int, x@));
            // ordering around the insertion point
            assert forall|j: int, k: int| 0 <= j < k < nvs.len() implies sort_le(
                policy,
                nvs[j],
                nvs[k],
            ) by {
                if k < p {
                    assert(nvs[j] == ovs[j] && nvs[k] == ovs[k]);
                } else if j > p {
                    assert(nvs[j] == ovs[j - 1] && nvs[k] == ovs[k - 1]);
                } else if j < p && k == p {
                    assert(nvs[j] == ovs[j] && nvs[k] == x@);
                } else if j == p {
                    assert(nvs[j] == x@ && nvs[k] == ovs[k - 1]);
                    lemma_sort_le_total(policy, ovs[p as int], x@);
                    assert(sort_le(policy, x@, ovs[p as int]));
                    if k - 1 > p {
                        assert(sort_le(policy, ovs[p as int], ovs[k - 1]));
                        lemma_sort_le_transitive(policy, x@, ovs[p as int], ovs[k - 1]);
                    }
                } else {
                    // j < p, k > p: both stand in the old sequence
                    assert(nvs[j] == ovs[j] && nvs[k] == ovs[k - 1]);
                    assert(sort_le(policy, ovs[j], ovs[k - 1]));
                }
            }
            // multiset grows by x
            assert(ovs.insert(p as int, x@).to_multiset() =~= ovs.to_multiset().insert(x@)) by {
                lemma_insert_multiset(ovs, x@, p as int);
            }
            assert(views_of(v@.take(i as int)) =~= views_of(v@.take(i - 1)).push(v@[i - 1]@));
            vstd::seq_lib::to_multiset_build(views_of(v@.take(i - 1)), v@[i - 1]@);
            assert(views_of(v@.take(i as int)).to_multiset() =~= views_of(
                v@.take(i - 1),
            ).to_multiset().insert(v@[i - 1]@));
        }
    }
    proof {
        assert(v@.take(v@.len() as int) =~= v@);
    }
    out
}

/// Inserting an element anywhere adds exactly it to the multiset.
proof fn lemma_insert_multiset(s: Seq<IssueView>, x: IssueView, p: int)
    requires
        0 <= p <= s.len(),
    ensures
        s.insert(p, x).to_multiset() =~= s.to_multiset().insert(x),
    decreases s.len() - p,
{
    broadcast use vstd::seq_lib::group_to_multiset_ensures;

    if p == s.len() {
        assert(s.insert(p, x) =~= s.push(x));
    } else {
        lemma_insert_multiset(s, x, p + 1);
        let a = s.insert(p, x);
        let b = s.insert(p + 1, x);
        assert(a.remove(p) =~= s);
        assert(b.remove(p + 1) =~= s);
        assert(a.to_multiset().remove(a[p]) =~= s.to_multiset());
        assert(b.to_multiset().remove(b[p + 1]) =~= s.to_multiset());
        assert(a[p] == x && b[p + 1] == x);
        assert(a.to_multiset().count(x) == s.to_multiset().count(x) + 1);
        assert(b.to_multiset().count(x) == s.to_multiset().count(x) + 1);
        assert forall|y: IssueView| true implies a.to_multiset().count(y) == b.to_multiset().count(
            y,
        ) by {
            if y != x {
                assert(a.to_multiset().count(y) == s.to_multiset().count(y));
                assert(b.to_multiset().count(y) == s.to_multiset().count(y));
            }
        }
        assert(a.to_multiset() =~= b.to_multiset());
    }
}

/// Whether the issue carries the given label.
fn has_label(iss: &Issue, label: &str) -> (r: bool)
    ensures
        r == iss@.labels.contains(label@),
{
    let mut j: usize = 0;
    while j < iss.labels.len()
        invariant
            j <= iss.labels@.len(),
            forall|k: int| 0 <= k < j ==> iss@.labels[k] != label@,
        decreases iss.labels@.len() - j,
    {
        proof {
            assert(iss@.labels[j as int] == iss.labels@[j as int]@);
        }
        if str_eq(iss.labels[j].as_str(), label) {
            return true;
        }
        j = j + 1;
    }
    false
}

/// Whether the issue matches every caller filter.
pub fn matches_filters_exec(f: &ReadyFilters, iss: &Issue) -> (r: bool)
    ensures
        r == matches_filters(*f, iss@),
{
    match &f.assignee {
        Some(a) => {
            match &iss.assignee {
                Some(ia) => {
                    if !str_eq(ia.as_str(), a.as_str()) {
                        return false;
                    }
                },
                None => {
                    return false;
                },
            }
        },
        None => {},
    }
    if f.unassigned && iss.assignee.is_some() {
        return false;
    }
    let mut i: usize = 0;
    while i < f.labels_and.len()
        invariant
            i <= f.labels_and@.len(),
            forall|k: int| 0 <= k < i ==> iss@.labels.contains(#[trigger] f.labels_and.deep_view()[k]),
        decreases f.labels_and@.len() - i,
    {
        proof {
            assert(f.labels_and.deep_view()[i as int] == f.labels_and@[i as int]@);
        }
        if !has_label(iss, f.labels_and[i].as_str()) {
            return false;
        }
        i = i + 1;
    }
    if f.labels_or.len() > 0 {
        let mut any = false;
        let mut i: usize = 0;
        while i < f.labels_or.len()
            invariant
                i <= f.labels_or@.len(),
                any ==> (exists|k: int|
                    0 <= k < f.labels_or.deep_view().len() && iss@.labels.contains(
                        #[trigger] f.labels_or.deep_view()[k],
                    )),
                !any ==> (forall|k: int|
                    0 <= k < i ==> !iss@.labels.contains(#[trigger] f.labels_or.deep_view()[k])),
            decreases f.labels_or@.len() - i,
        {
            proof {
                assert(f.labels_or.deep_view()[i as int] == f.labels_or@[i as int]@);
            }
            if has_label(iss, f.labels_or[i].as_str()) {
                any = true;
            }
            i = i + 1;
        }
        if !any {
            return false;
        }
    }
    match &f.types {
        Some(ts) => {
            let mut found = false;
            let mut i: usize = 0;
            while i < ts.len()
                invariant
                    i <= ts@.len(),
                    found ==> ts@.contains(iss@.issue_type),
                    !found ==> (forall|k: int| 0 <= k < i ==> ts@[k] != iss@.issue_type),
                decreases ts@.len() - i,
            {
                if ts[i] == iss.issue_type {
                    found = true;
                }
                i = i + 1;
            }
            if !found {
                return false;
            }
        },
        None => {},
    }
    match &f.priorities {
        Some(ps) => {
            let mut found = false;
            let mut i: usize = 0;
            while i < ps.len()
                invariant
                    i <= ps@.len(),
                    found ==> (exists|k: int|
                        0 <= k < ps@.len() && (#[trigger] ps@[k]).0 as int == iss@.priority),
                    !found ==> (forall|k: int|
                        0 <= k < i ==> (#[trigger] ps@[k]).0 as int != iss@.priority),
                decreases ps@.len() - i,
            {
                if ps[i].0 == iss.priority.0 {
                    found = true;
                }
                i = i + 1;
            }
            if !found {
                return false;
            }
        },
        None => {},
    }
    true
}

impl Store {
    /// The base eligibility test for one issue, before cross-store
    /// blockers.
    pub fn is_ready_exec(&self, iss: &Issue, f: &ReadyFilters, now: i64) -> (r: bool)
        requires
            self.wf(),
        ensures
            r == is_ready(self@, iss@, *f, now as int),
    {
        if iss.deferred && !f.include_deferred {
            return false;
        }
        if iss.pinned || iss.ephemeral {
            return false;
        }
        match &iss.lease {
            Some(l) => {
                if !l.is_expired(now) {
                    return false;
                }
            },
            None => {},
        }
        let mut d: usize = 0;
        while d < iss.dependencies.len()
            invariant
                self.wf(),
                d <= iss.dependencies@.len(),
                forall|k: int| 0 <= k < d ==> dep_resolved(self@, #[trigger] iss@.dependencies[k]),
            decreases iss.dependencies@.len() - d,
        {
            proof {
                assert(iss@.dependencies[d as int] == iss.dependencies@[d as int]@);
            }
            let ok = match self.issue_status(iss.dependencies[d].as_str()) {
                Some(st) => st.is_resolved(),
                None => false,
            };
            if !ok {
                return false;
            }
            d = d + 1;
        }
        matches_filters_exec(f, iss)
    }

    /// The ready queue before cross-store blockers: every eligible
    /// issue, sorted by the policy, and — when the filters carry a limit
    /// — cut to that many after sorting.
    pub fn get_ready_issues(
        &self,
        filters: &ReadyFilters,
        sort_policy: ReadySortPolicy,
        now: i64,
    ) -> (r: Vec<Issue>)
        requires
            self.wf(),
        ensures
            sorted_by_policy(views_of(r@), sort_policy),
            filters.limit is None ==> views_of(r@).to_multiset() == ready_issues(
                self@,
                self@,
                *filters,
                now as int,
            ).to_multiset(),
            filters.limit matches Some(n) ==> (exists|full: Seq<IssueView>|
                sorted_by_policy(full, sort_policy) && full.to_multiset() == ready_issues(
                    self@,
                    self@,
                    *filters,
                    now as int,
                ).to_multiset() && views_of(r@) == (if n < full.len() {
                    full.take(n as int)
                } else {
                    full
                })),
    {
        let mut selected: Vec<Issue> = Vec::new();
        let mut i: usize = 0;
        while i < self.issues.len()
            invariant
                self.wf(),
                i <= self.issues@.len(),
                views_of(selected@) =~= ready_issues(
                    self@,
                    self@.take(i as int),
                    *filters,
                    now as int,
                ),
            decreases self.issues@.len() - i,
        {
            let ghost old_sel = selected@;
            if self.is_ready_exec(&self.issues[i], filters, now) {
                selected.push(dup_issue(&self.issues[i]));
            }
            i = i + 1;
            proof {
                assert(self@.take(i as int).drop_last() =~= self@.take(i - 1));
                assert(self@.take(i as int).last() == self@[i - 1]);
                assert(views_of(selected@) =~= ready_issues(
                    self@,
                    self@.take(i as int),
                    *filters,
                    now as int,
                ));
            }
        }
        proof {
            assert(self@.take(self@.len() as int) =~= self@);
        }
        let mut sorted = sort_ready(selected, sort_policy);
        let ghost full = views_of(sorted@);
        match filters.limit {
            Some(n) => {
                if sorted.len() > n {
                    sorted.truncate(n);
                    proof {
                        assert(views_of(sorted@) =~= full.take(n as int));
                    }
                }
                proof {
                    assert(sorted_by_policy(full, sort_policy) && full.to_multiset()
                        == ready_issues(self@, self@, *filters, now as int).to_multiset()
                        && views_of(sorted@) == (if n < full.len() {
                        full.take(n as int)
                    } else {
                        full
                    }));
                }
            },
            None => {},
        }
        sorted
    }
}

/// The issues of `scan` that no cross-store blocker excludes, in order.
pub open spec fn ext_filtered(scan: Seq<IssueView>, ext: Seq<ExternalStatus>) -> Seq<IssueView>
    decreases scan.len(),
{
    if scan.len() == 0 {
        Seq::empty()
    } else if unblocked_external(ext, scan.last()) {
        ext_filtered(scan.drop_last(), ext).push(scan.last())
    } else {
        ext_filtered(scan.drop_last(), ext)
    }
}

/// Whether every cross-store dependency of the issue is reported
/// resolved by the given records.
pub fn unblocked_external_exec(iss: &Issue, ext: &Vec<ExternalStatus>) -> (r: bool)
    ensures
        r == unblocked_external(ext@, iss@),
{
    let mut d: usize = 0;
    while d < iss.external_dependencies.len()
        invariant
            d <= iss.external_dependencies@.len(),
            forall|k: int|
                0 <= k < d ==> ext_resolved(
                    ext@,
                    (#[trigger] iss@.external_dependencies[k]).store_path,
                    iss@.external_dependencies[k].id,
                ),
        decreases iss.external_dependencies@.len() - d,
    {
        proof {
            assert(iss@.external_dependencies[d as int] == iss.external_dependencies@[d as int]@);
        }
        let dep = &iss.external_dependencies[d];
        let mut found = false;
        let mut j: usize = 0;
        while j < ext.len()
            invariant
                j <= ext@.len(),
                found ==> ext_resolved(ext@, dep@.store_path, dep@.id),
                !found ==> (forall|k: int|
                    0 <= k < j ==> !((#[trigger] ext@[k]).store_path@ == dep@.store_path
                        && ext@[k].id@ == dep@.id && ext@[k].resolved)),
            decreases ext@.len() - j,
        {
            let rec = &ext[j];
            if rec.resolved && str_eq(rec.store_path.as_str(), dep.store_path.as_str()) && str_eq(
                rec.id.as_str(),
                dep.id.as_str(),
            ) {
                found = true;
            }
            j = j + 1;
        }
        if !found {
            proof {
                assert(!ext_resolved(ext@, dep@.store_path, dep@.id));
                assert(!ext_resolved(
                    ext@,
                    iss@.external_dependencies[d as int].store_path,
                    iss@.external_dependencies[d as int].id,
                ));
            }
            return false;
        }
        d = d + 1;
    }
    true
}

/// Drops every issue that still has an unresolved cross-store blocker,
/// keeping the order of the rest.
pub fn apply_external_blockers(ready: Vec<Issue>, ext: &Vec<ExternalStatus>) -> (r: Vec<Issue>)
    ensures
        views_of(r@) == ext_filtered(views_of(ready@), ext@),
{
    let mut out: Vec<Issue> = Vec::new();
    let mut i: usize = 0;
    while i < ready.len()
        invariant
            i <= ready@.len(),
            views_of(out@) =~= ext_filtered(views_of(ready@).take(i as int), ext@),
        decreases ready@.len() - i,
    {
        if unblocked_external_exec(&ready[i], ext) {
            out.push(dup_issue(&ready[i]));
        }
        i = i + 1;
        proof {
            assert(views_of(ready@).take(i as int).drop_last() =~= views_of(ready@).take(i - 1));
            assert(views_of(ready@).take(i as int).last() == views_of(ready@)[i - 1]);
            assert(views_of(out@) =~= ext_filtered(views_of(ready@).take(i as int), ext@));
        }
    }
    proof {
        assert(views_of(ready@).take(views_of(ready@).len() as int) =~= views_of(ready@));
    }
    out
}

/// Cuts the list to the caller's count, strictly after all filtering; a
/// zero limit means no limit.
pub fn apply_limit(issues: Vec<Issue>, limit: usize) -> (r: Vec<Issue>)
    ensures
        (limit > 0 && issues@.len() > limit) ==> r@ == issues@.take(limit as int),
        !(limit > 0 && issues@.len() > limit) ==> r@ == issues@,
{
    let mut issues = issues;
    if limit > 0 && issues.len() > limit {
        issues.truncate(limit);
    }
    issues
}

/// An issue with an unresolved local dependency is never ready and never
/// stands in the eligible sequence, whatever the filters say.
pub proof fn lemma_blocked_excluded(
    s: Seq<IssueView>,
    iss: IssueView,
    f: ReadyFilters,
    now: int,
    d: int,
)
    requires
        0 <= d < iss.dependencies.len(),
        !dep_resolved(s, iss.dependencies[d]),
    ensures
        !is_ready(s, iss, f, now),
        !ready_issues(s, s, f, now).contains(iss),
{
    lemma_ready_issues_membership(s, s, f, now, iss);
}

/// Once every exclusion is gone — flags clear, lease free, every local
/// dependency resolved, filters matched — the issue stands in the
/// eligible sequence.
pub proof fn lemma_unblocked_appears(s: Seq<IssueView>, iss: IssueView, f: ReadyFilters, now: int)
    requires
        s.contains(iss),
        is_ready(s, iss, f, now),
    ensures
        ready_issues(s, s, f, now).contains(iss),
{
    lemma_ready_issues_membership(s, s, f, now, iss);
}

/// The issue type a filter string names, if any.
pub open spec fn spec_issue_type(s: Seq<char>) -> Option<IssueType> {
    if s == "bug"@ {
        Some(IssueType::Bug)
    } else if s == "feature"@ {
        Some(IssueType::Feature)
    } else if s == "task"@ {
        Some(IssueType::Task)
    } else if s == "epic"@ {
        Some(IssueType::Epic)
    } else if s == "chore"@ {
        Some(IssueType::Chore)
    } else {
        None
    }
}

/// Parses one type filter string.
pub fn parse_issue_type(s: &str) -> (r: Option<IssueType>)
    ensures
        r == spec_issue_type(s@),
{
    if str_eq(s, "bug") {
        Some(IssueType::Bug)
    } else if str_eq(s, "feature") {
        Some(IssueType::Feature)
    } else if str_eq(s, "task") {
        Some(IssueType::Task)
    } else if str_eq(s, "epic") {
        Some(IssueType::Epic)
    } else if str_eq(s, "chore") {
        Some(IssueType::Chore)
    } else {
        None
    }
}

/// Parses type filter strings: every token must name a type, or the
/// whole parse fails with `Validation` — a malformed filter value is
/// rejected, never passed over; yields `None` when nothing was given.
pub fn parse_types(types: &Vec<String>) -> (r: Result<Option<Vec<IssueType>>, BeadsError>)
    ensures
        types@.len() == 0 ==> (r matches Ok(o) && o is None),
        (types@.len() > 0 && (forall|i: int|
            0 <= i < types.deep_view().len() ==> spec_issue_type(
                #[trigger] types.deep_view()[i],
            ) is Some)) ==> (r matches Ok(o) && o matches Some(v) && v@.len() == types@.len() && (
        forall|i: int|
            0 <= i < v@.len() ==> spec_issue_type(types.deep_view()[i]) == Some(
                #[trigger] v@[i],
            ))),
        (exists|i: int|
            0 <= i < types.deep_view().len() && spec_issue_type(
                #[trigger] types.deep_view()[i],
            ) is None) ==> (r matches Err(e) && e is Validation),
{
    if types.len() == 0 {
        return Ok(None);
    }
    let mut parsed: Vec<IssueType> = Vec::new();
    let mut i: usize = 0;
    while i < types.len()
        invariant
            i <= types@.len(),
            parsed@.len() == i,
            forall|j: int|
                0 <= j < i ==> spec_issue_type(types.deep_view()[j]) == Some(#[trigger] parsed@[j]),
        decreases types@.len() - i,
    {
        proof {
            assert(types.deep_view()[i as int] == types@[i as int]@);
        }
        match parse_issue_type(types[i].as_str()) {
            Some(t) => {
                parsed.push(t);
            },
            None => {
                return Err(
                    BeadsError::validation("type", "type must name a known issue type"),
                );
            },
        }
        i = i + 1;
    }
    proof {
        assert forall|i: int| 0 <= i < types.deep_view().len() implies spec_issue_type(
            #[trigger] types.deep_view()[i],
        ) is Some by {
            assert(spec_issue_type(types.deep_view()[i]) == Some(parsed@[i]));
        }
    }
    Ok(Some(parsed))
}

/// The priority a filter string names: a single decimal digit, with an
/// optional `P` or `p` in front.
pub open spec fn spec_priority_token(s: Seq<char>) -> Option<int> {
    if s.len() == 1 && 48 <= s[0] as u32 <= 57 {
        Some(s[0] as u32 - 48)
    } else if s.len() == 2 && (s[0] == 'P' || s[0] == 'p') && 48 <= s[1] as u32 <= 57 {
        Some(s[1] as u32 - 48)
    } else {
        None
    }
}

/// Parses one priority filter string.
pub fn parse_priority_token(s: &str) -> (r: Option<u8>)
    ensures
        match r {
            Some(v) => spec_priority_token(s@) == Some(v as int),
            None => spec_priority_token(s@) is None,
        },
{
    let n = s.unicode_len();
    if n == 1 {
        let c = s.get_char(0);
        let u = c as u32;
        if 48 <= u && u <= 57 {
            Some((u - 48) as u8)
        } else {
            None
        }
    } else if n == 2 {
        let c0 = s.get_char(0);
        let c1 = s.get_char(1);
        let u = c1 as u32;
        if (c0 == 'P' || c0 == 'p') && 48 <= u && u <= 57 {
            Some((u - 48) as u8)
        } else {
            None
        }
    } else {
        None
    }
}

/// Parses priority filter strings: every token must name a priority, or
/// the whole parse fails with `Validation`; yields `None` when nothing
/// was given.
pub fn parse_priorities(priorities: &Vec<String>) -> (r: Result<Option<Vec<Priority>>, BeadsError>)
    ensures
        priorities@.len() == 0 ==> (r matches Ok(o) && o is None),
        (priorities@.len() > 0 && (forall|i: int|
            0 <= i < priorities.deep_view().len() ==> spec_priority_token(
                #[trigger] priorities.deep_view()[i],
            ) is Some)) ==> (r matches Ok(o) && o matches Some(v) && v@.len()
            == priorities@.len() && (forall|i: int|
            0 <= i < v@.len() ==> spec_priority_token(priorities.deep_view()[i]) == Some(
                (#[trigger] v@[i]).0 as int,
            ))),
        (exists|i: int|
            0 <= i < priorities.deep_view().len() && spec_priority_token(
                #[trigger] priorities.deep_view()[i],
            ) is None) ==> (r matches Err(e) && e is Validation),
{
    if priorities.len() == 0 {
        return Ok(None);
    }
    let mut parsed: Vec<Priority> = Vec::new();
    let mut i: usize = 0;
    while i < priorities.len()
        invariant
            i <= priorities@.len(),
            parsed@.len() == i,
            forall|j: int|
                0 <= j < i ==> spec_priority_token(priorities.deep_view()[j]) == Some(
                    (#[trigger] parsed@[j]).0 as int,
                ),
        decreases priorities@.len() - i,
    {
        proof {
            assert(priorities.deep_view()[i as int] == priorities@[i as int]@);
        }
        match parse_priority_token(priorities[i].as_str()) {
            Some(v) => {
                parsed.push(Priority(v));
            },
            None => {
                return Err(
                    BeadsError::validation("priority", "priority must be a digit, optionally behind P"),
                );
            },
        }
        i = i + 1;
    }
    proof {
        assert forall|i: int| 0 <= i < priorities.deep_view().len() implies spec_priority_token(
            #[trigger] priorities.deep_view()[i],
        ) is Some by {
            assert(spec_priority_token(priorities.deep_view()[i]) == Some((parsed@[i]).0 as int));
        }
    }
    Ok(Some(parsed))
}

/// The plain text of a priority: `P` and the band number.
pub open spec fn spec_format_priority(p: int) -> Seq<char>
    recommends
        p >= 0,
{
    "P"@ + crate::text::spec_decimal(p as nat)
}

/// Renders a priority as plain text.
pub fn format_priority(p: &Priority) -> (r: String)
    ensures
        r@ == spec_format_priority(p.0 as int),
{
    let mut s = String::new();
    s.append("P");
    s.append(crate::text::u64_to_decimal(p.0 as u64).as_str());
    s
}

/// The color the badge gets when color is on: red for the top band,
/// yellow for the next, none otherwise.
pub open spec fn spec_color_code(p: int) -> Seq<char> {
    if p == 0 {
        "\u{1b}[31m"@
    } else if p == 1 {
        "\u{1b}[33m"@
    } else {
        Seq::empty()
    }
}

/// The bracketed priority badge, colored for the two most urgent bands
/// when color is on.
pub open spec fn spec_priority_badge(p: int, use_color: bool) -> Seq<char> {
    let plain = "["@ + spec_format_priority(p) + "]"@;
    if use_color && p <= 1 {
        spec_color_code(p) + plain + "\u{1b}[0m"@
    } else {
        plain
    }
}

/// Renders the bracketed priority badge.
pub fn format_priority_badge(p: &Priority, use_color: bool) -> (r: String)
    ensures
        r@ == spec_priority_badge(p.0 as int, use_color),
{
    let mut s = String::new();
    if use_color && p.0 <= 1 {
        if p.0 == 0 {
            s.append("\u{1b}[31m");
        } else {
            s.append("\u{1b}[33m");
        }
        s.append("[");
        s.append(format_priority(p).as_str());
        s.append("]");
        s.append("\u{1b}[0m");
    } else {
        s.append("[");
        s.append(format_priority(p).as_str());
        s.append("]");
    }
    proof {
        if p.0 > 1 || !use_color {
            assert(s@ =~= spec_priority_badge(p.0 as int, use_color));
        } else {
            assert(s@ =~= spec_priority_badge(p.0 as int, use_color));
        }
    }
    s
}

/// The title cut to at most `max` characters.
pub open spec fn spec_truncate_title(title: Seq<char>, max: int) -> Seq<char> {
    if title.len() <= max {
        title
    } else {
        title.subrange(0, max)
    }
}

/// Cuts a title to at most `max` characters.
pub fn truncate_title(title: &str, max: usize) -> (r: String)
    ensures
        r@ == spec_truncate_title(title@, max as int),
{
    let n = title.unicode_len();
    if n <= max {
        title.to_owned()
    } else {
        title.substring_char(0, max).to_owned()
    }
}

/// One rendered ready-queue line.  The width budget for the title is
/// what remains of `max_width` after the plain prefix (index, plain
/// badge, id) and the assignee suffix.
pub open spec fn spec_ready_line(
    index: int,
    iss: IssueView,
    assignee: Seq<char>,
    use_color: bool,
    max_width: Option<usize>,
) -> Seq<char>
    recommends
        index >= 0,
{
    let prefix_plain = crate::text::spec_decimal(index as nat) + ". "@ + spec_priority_badge(
        iss.priority,
        false,
    ) + " "@ + iss.id + " "@;
    let suffix = " ("@ + assignee + ")"@;
    let title = match max_width {
        None => iss.title,
        Some(w) => spec_truncate_title(
            iss.title,
            if w >= prefix_plain.len() + suffix.len() {
                w - prefix_plain.len() - suffix.len()
            } else {
                0
            },
        ),
    };
    crate::text::spec_decimal(index as nat) + ". "@ + spec_priority_badge(iss.priority, use_color)
        + " "@ + iss.id + " "@ + title + suffix
}

/// Renders one line of the ready queue: index, priority badge, id,
/// title (cut to the terminal width when one is given) and assignee.
pub fn format_ready_line(
    index: usize,
    issue: &Issue,
    assignee: &str,
    use_color: bool,
    max_width: Option<usize>,
) -> (r: String)
    ensures
        r@ == spec_ready_line(index as int, issue@, assignee@, use_color, max_width),
{
    let mut prefix_plain = crate::text::usize_to_decimal(index);
    prefix_plain.append(". ");
    prefix_plain.append(format_priority_badge(&issue.priority, false).as_str());
    prefix_plain.append(" ");
    prefix_plain.append(issue.id.as_str());
    prefix_plain.append(" ");
    let mut suffix = String::new();
    suffix.append(" (");
    suffix.append(assignee);
    suffix.append(")");
    let title = match max_width {
        None => issue.title.clone(),
        Some(w) => {
            let plen = prefix_plain.as_str().unicode_len();
            let slen = suffix.as_str().unicode_len();
            let avail: usize = if w >= plen && w - plen >= slen {
                w - plen - slen
            } else {
                0
            };
            truncate_title(issue.title.as_str(), avail)
        },
    };
    let mut out = crate::text::usize_to_decimal(index);
    out.append(". ");
    out.append(format_priority_badge(&issue.priority, use_color).as_str());
    out.append(" ");
    out.append(issue.id.as_str());
    out.append(" ");
    out.append(title.as_str());
    out.append(suffix.as_str());
    proof {
        assert(out@ =~= spec_ready_line(index as int, issue@, assignee@, use_color, max_width));
    }
    out
}

} // verus!
