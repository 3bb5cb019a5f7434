//! The claim flow: validate the caller's input, resolve target ids, and
//! atomically claim each issue with a time-bounded lease.
//!
//! Validation failures (non-positive TTL, an explicit lease id with more
//! than one target, no target at all) are reported before any store
//! mutation.  A lease-id override is only legal when claiming exactly
//! one issue.

use vstd::prelude::*;

use crate::error::BeadsError;
use crate::lease::{generate_lease_id, lease_expires_at};
use crate::model::{dup_vec_string, IssueView};
use crate::resolver::{
    resolve_err_for, spec_resolve, ConfigLayer, IdResolver, ResolveOutcome, ResolverConfig,
};
use crate::store::{
    after_claim, claim_ok, granted_lease, has_id, index_of_id, lemma_update_preserves_others,
    live_lease_conflict, Store,
};

verus! {

/// Caller input to the claim flow.
pub struct ClaimArgs {
    pub ids: Vec<String>,
    pub lease_id: Option<String>,
    pub ttl_seconds: i64,
}

/// What a successful claim reports for one issue.
pub struct ClaimOutput {
    pub id: String,
    pub lease_id: String,
    pub lease_owner: String,
    pub lease_expires_at: i64,
    pub lease_heartbeat_at: i64,
}

/// Builds the id resolver from the configuration layer's prefix.
pub fn build_resolver(config_layer: &ConfigLayer, _storage: &Store) -> (r: IdResolver)
    ensures
        r.config.prefix@ == config_layer.issue_prefix@,
{
    IdResolver::new(ResolverConfig::with_prefix(config_layer.issue_prefix.clone()))
}

/// The tokens the claim flow works on: the caller's ids, or the
/// last-touched id when none were given.
pub open spec fn effective_tokens(ids: Seq<Seq<char>>, last: Seq<char>) -> Seq<Seq<char>> {
    if ids.len() > 0 {
        ids
    } else {
        seq![last]
    }
}

/// Resolves the claim targets: the caller's tokens, or the last-touched
/// id when none were given; fails with `Validation` when there is
/// neither, and otherwise applies the resolver's batch rule.
pub fn resolve_target_ids(
    args: &ClaimArgs,
    last_touched: &str,
    resolver: &IdResolver,
    store: &Store,
) -> (r: Result<Vec<String>, BeadsError>)
    requires
        store.wf(),
    ensures
        (args.ids.deep_view().len() == 0 && last_touched@.len() == 0) ==> (r matches Err(e)
            && e is Validation),
        (args.ids.deep_view().len() > 0 || last_touched@.len() > 0) ==> ((r is Ok) <==> (
        forall|i: int|
            0 <= i < effective_tokens(args.ids.deep_view(), last_touched@).len() ==> spec_resolve(
                store@,
                resolver.config.prefix@,
                effective_tokens(args.ids.deep_view(), last_touched@)[i],
            ) is Resolved)),
        r matches Ok(rs) ==> rs.deep_view().len() == effective_tokens(
            args.ids.deep_view(),
            last_touched@,
        ).len() && (forall|i: int|
            0 <= i < rs.deep_view().len() ==> spec_resolve(
                store@,
                resolver.config.prefix@,
                effective_tokens(args.ids.deep_view(), last_touched@)[i],
            ) == ResolveOutcome::Resolved(rs.deep_view()[i])),
        r matches Err(e) ==> ((args.ids.deep_view().len() == 0 && last_touched@.len() == 0
            && e is Validation) || (exists|i: int|
            0 <= i < effective_tokens(args.ids.deep_view(), last_touched@).len()
                && resolve_err_for(
                spec_resolve(
                    store@,
                    resolver.config.prefix@,
                    effective_tokens(args.ids.deep_view(), last_touched@)[i],
                ),
                e,
                effective_tokens(args.ids.deep_view(), last_touched@)[i],
            ) && (forall|j: int|
                0 <= j < i ==> spec_resolve(
                    store@,
                    resolver.config.prefix@,
                    effective_tokens(args.ids.deep_view(), last_touched@)[j],
                ) is Resolved))),
    {
        let mut tokens: Vec<String>;
        if args.ids.len() == 0 {
            if last_touched.is_empty() {
                return Err(
                    BeadsError::validation("ids", "no issue IDs provided and no last-touched issue"),
                );
            }
            tokens = Vec::new();
            tokens.push(last_touched.to_owned());
            proof {
                assert(tokens.deep_view() =~= effective_tokens(
                    args.ids.deep_view(),
                    last_touched@,
                ));
            }
        } else {
            tokens = dup_vec_string(&args.ids);
            proof {
                assert(tokens.deep_view() =~= effective_tokens(
                    args.ids.deep_view(),
                    last_touched@,
                ));
            }
        }
        let resolved = match resolver.resolve_all(&tokens, store) {
            Ok(rs) => rs,
            Err(e) => {
                return Err(e);
            },
        };
        let mut ids: Vec<String> = Vec::new();
        let mut k: usize = 0;
        while k < resolved.len()
            invariant
                k <= resolved@.len(),
                ids@.len() == k,
                forall|j: int| 0 <= j < k ==> ids@[j]@ == resolved@[j].id@,
            decreases resolved@.len() - k,
        {
            ids.push(resolved[k].id.clone());
            k = k + 1;
        }
        proof {
            assert forall|i: int| 0 <= i < ids.deep_view().len() implies ids.deep_view()[i]
                == resolved@[i].id@ by {
                assert(ids.deep_view()[i] == ids@[i]@);
            }
        }
        Ok(ids)
    }

/// Claims one issue with an explicit lease token: validates the TTL,
/// computes the expiry, and writes the lease through the store's atomic
/// claim.  Exact: given the token, everything about the result and the
/// new store state is pinned down.
pub fn claim_one(
    store: &mut Store,
    id: &str,
    actor: &str,
    lease_id: &str,
    ttl_seconds: i64,
    now: i64,
) -> (r: Result<ClaimOutput, BeadsError>)
    requires
        old(store).wf(),
        now >= 0,
        now + ttl_seconds <= i64::MAX,
    ensures
        final(store).wf(),
        ttl_seconds <= 0 ==> (r matches Err(e) && e is Validation) && final(store)@ == old(
            store,
        )@,
        ttl_seconds > 0 ==> ((r is Ok) <==> claim_ok(old(store)@, id@, lease_id@, now as int)),
        r matches Ok(out) ==> final(store)@ =~= after_claim(
            old(store)@,
            id@,
            actor@,
            lease_id@,
            now + ttl_seconds,
            now as int,
        ) && out.id@ == id@ && out.lease_id@ == lease_id@ && out.lease_owner@ == actor@
            && out.lease_expires_at == now + ttl_seconds && out.lease_heartbeat_at == now,
        r is Err ==> final(store)@ == old(store)@,
        ttl_seconds > 0 && !has_id(old(store)@, id@) ==> (r matches Err(e)
            && e matches BeadsError::IssueNotFound { id: eid } && eid@ == id@),
        ttl_seconds > 0 && has_id(old(store)@, id@) && live_lease_conflict(
            old(store)@[index_of_id(old(store)@, id@)],
            lease_id@,
            now as int,
        ) ==> (r matches Err(e) && e matches BeadsError::AlreadyClaimed { id: eid } && eid@
            == id@),
{
    if ttl_seconds <= 0 {
        return Err(BeadsError::validation("ttl", "lease TTL must be a positive number of seconds"));
    }
    let expires_at = lease_expires_at(now, ttl_seconds);
    match store.claim_issue(id, actor, lease_id, expires_at, now) {
        Ok(()) => Ok(
            ClaimOutput {
                id: id.to_owned(),
                lease_id: lease_id.to_owned(),
                lease_owner: actor.to_owned(),
                lease_expires_at: expires_at,
                lease_heartbeat_at: now,
            },
        ),
        Err(e) => Err(e),
    }
}

/// No two of the resolved target ids are the same.
pub open spec fn distinct_ids(ids: Seq<Seq<char>>) -> bool {
    forall|i: int, j: int| 0 <= i < j < ids.len() ==> ids[i] != ids[j]
}

/// Every target from position `from` on names an issue of the store
/// that carries no lease.
pub open spec fn targets_unleased_from(s: Seq<IssueView>, ids: Seq<Seq<char>>, from: int) -> bool {
    forall|j: int|
        from <= j < ids.len() ==> has_id(s, #[trigger] ids[j]) && s[index_of_id(
            s,
            ids[j],
        )].lease is None
}

/// The store state after the claims reported by the given outputs, in
/// order.
pub open spec fn after_claims(s: Seq<IssueView>, outs: Seq<ClaimOutput>, now: int) -> Seq<
    IssueView,
>
    decreases outs.len(),
{
    if outs.len() == 0 {
        s
    } else {
        after_claim(
            after_claims(s, outs.drop_last(), now),
            outs.last().id@,
            outs.last().lease_owner@,
            outs.last().lease_id@,
            outs.last().lease_expires_at as int,
            now,
        )
    }
}

/// Claims every resolved issue in order, generating a fresh random
/// lease token for each unless the caller supplied one.
///
/// Validation comes before any mutation: a caller-supplied lease id with
/// more than one target, or a non-positive TTL, fails with `Validation`
/// and leaves the store untouched.  Success is owed — and proved — when
/// the distinct resolved targets all exist with no lease, and when a
/// single target would accept the caller's own token.  A protocol
/// failure mid-batch is returned as the store reported it; claims
/// already granted stand, as each claim is its own transaction.
pub fn claim_issues(
    store: &mut Store,
    args: &ClaimArgs,
    actor: &str,
    resolved_ids: &Vec<String>,
    now: i64,
) -> (r: Result<Vec<ClaimOutput>, BeadsError>)
    requires
        old(store).wf(),
        now >= 0,
        now + args.ttl_seconds <= i64::MAX,
    ensures
        final(store).wf(),
        (args.lease_id is Some && resolved_ids@.len() > 1) ==> (r matches Err(e)
            && e is Validation) && final(store)@ == old(store)@,
        !(args.lease_id is Some && resolved_ids@.len() > 1) && args.ttl_seconds <= 0 ==> (
        r matches Err(e) && e is Validation) && final(store)@ == old(store)@,
        r is Ok ==> args.ttl_seconds > 0 && !(args.lease_id is Some && resolved_ids@.len() > 1),
        r matches Ok(outs) ==> outs@.len() == resolved_ids@.len() && final(store)@ =~= after_claims(
            old(store)@,
            outs@,
            now as int,
        ) && (forall|k: int|
            0 <= k < outs@.len() ==> (#[trigger] outs@[k]).id@ == resolved_ids.deep_view()[k]
                && outs@[k].lease_owner@ == actor@ && outs@[k].lease_expires_at == now
                + args.ttl_seconds && outs@[k].lease_heartbeat_at == now && (match args.lease_id {
                Some(l) => outs@[k].lease_id@ == l@,
                None => outs@[k].lease_id@.len() == 32,
            })),
        r matches Err(e) ==> ((args.ttl_seconds > 0 && !(args.lease_id is Some
            && resolved_ids@.len() > 1)) ==> (e is IssueNotFound || e is AlreadyClaimed)),
        (args.ttl_seconds > 0 && !(args.lease_id is Some && resolved_ids@.len() > 1)
            && distinct_ids(resolved_ids.deep_view()) && targets_unleased_from(
            old(store)@,
            resolved_ids.deep_view(),
            0,
        )) ==> r is Ok,
        (args.ttl_seconds > 0 && (args.lease_id matches Some(l) && resolved_ids@.len() == 1
            && claim_ok(
            old(store)@,
            resolved_ids.deep_view()[0],
            l@,
            now as int,
        ))) ==> r is Ok,
{
    if args.lease_id.is_some() && resolved_ids.len() > 1 {
        return Err(
            BeadsError::validation(
                "lease_id",
                "lease_id can only be provided when claiming a single issue",
            ),
        );
    }
    if args.ttl_seconds <= 0 {
        return Err(BeadsError::validation("ttl", "lease TTL must be a positive number of seconds"));
    }
    let ghost pre = store@;
    let mut outputs: Vec<ClaimOutput> = Vec::new();
    let mut k: usize = 0;
    while k < resolved_ids.len()
        invariant
            store.wf(),
            now >= 0,
            now + args.ttl_seconds <= i64::MAX,
            args.ttl_seconds > 0,
            !(args.lease_id is Some && resolved_ids@.len() > 1),
            k <= resolved_ids@.len(),
            outputs@.len() == k,
            pre == old(store)@,
            store@ =~= after_claims(pre, outputs@, now as int),
            forall|j: int|
                0 <= j < k ==> (#[trigger] outputs@[j]).id@ == resolved_ids.deep_view()[j]
                    && outputs@[j].lease_owner@ == actor@ && outputs@[j].lease_expires_at == now
                    + args.ttl_seconds && outputs@[j].lease_heartbeat_at == now && (
                match args.lease_id {
                    Some(l) => outputs@[j].lease_id@ == l@,
                    None => outputs@[j].lease_id@.len() == 32,
                }),
            (distinct_ids(resolved_ids.deep_view()) && targets_unleased_from(
                pre,
                resolved_ids.deep_view(),
                0,
            )) ==> targets_unleased_from(store@, resolved_ids.deep_view(), k as int),
        decreases resolved_ids@.len() - k,
    {
        let ghost rdv = resolved_ids.deep_view();
        let ghost before = store@;
        proof {
            assert(rdv[k as int] == resolved_ids@[k as int]@);
        }
        let lease_id = match &args.lease_id {
            Some(l) => l.clone(),
            None => generate_lease_id(),
        };
        let out = match claim_one(
            store,
            resolved_ids[k].as_str(),
            actor,
            lease_id.as_str(),
            args.ttl_seconds,
            now,
        ) {
            Ok(out) => out,
            Err(e) => {
                proof {
                    // With every target present and unleased, this claim
                    // could not have failed.
                    if distinct_ids(rdv) && targets_unleased_from(pre, rdv, 0) {
                        assert(has_id(before, rdv[k as int]));
                        assert(before[index_of_id(before, rdv[k as int])].lease is None);
                        assert(claim_ok(before, rdv[k as int], lease_id@, now as int));
                        assert(false);
                    }
                    // With a single caller-supplied token that the store
                    // accepts, neither could this one.
                    let ghost override_token = args.lease_id;
                    match override_token {
                        Some(l) => {
                            if resolved_ids@.len() == 1 && claim_ok(pre, rdv[0], l@, now as int) {
                                assert(k == 0);
                                assert(after_claims(pre, outputs@, now as int) == pre);
                                assert(before == pre);
                                assert(lease_id@ == l@);
                                assert(false);
                            }
                        },
                        None => {},
                    }
                }
                return Err(e);
            },
        };
        let ghost prev_outs = outputs@;
        outputs.push(out);
        k = k + 1;
        proof {
            assert(outputs@.drop_last() =~= prev_outs);
            assert(outputs@.last() == out);
            assert(resolved_ids.deep_view()[k - 1] == resolved_ids@[k - 1]@);
            assert(store@ =~= after_claims(pre, outputs@, now as int));
            // A claim of one target leaves every later distinct target
            // present and unleased.
            if distinct_ids(rdv) && targets_unleased_from(pre, rdv, 0) {
                let idx = index_of_id(before, rdv[k - 1]);
                let claimed = before[idx].with_lease(
                    Some(granted_lease(actor@, lease_id@, now + args.ttl_seconds, now as int)),
                );
                assert(store@ == before.update(idx, claimed));
                assert forall|j: int|
                    k <= j < rdv.len() implies has_id(store@, #[trigger] rdv[j]) && store@[
                    index_of_id(store@, rdv[j])].lease is None by {
                    assert(has_id(before, rdv[j]));
                    assert(before[index_of_id(before, rdv[j])].lease is None);
                    assert(rdv[j] != rdv[k - 1]);
                    assert(before[idx].id == rdv[k - 1]);
                    lemma_update_preserves_others(before, idx, claimed, rdv[j]);
                }
            }
        }
    }
    Ok(outputs)
}

} // verus!
