//! The lease protocol end to end: claim, release, heartbeat, sweep,
//! identifier resolution, and the acceptance reporting helpers.

use beads_core::acceptance::{
    aggregate_issue, aggregate_item, command_step_result, render_text_report, resolve_path,
    run_file_step, validate_acceptance_schema, AcceptanceCriteria, ReportStatus, StepStatus,
    VerifyReport, VerifySummary,
};
use beads_core::claim::{claim_issues, claim_one, resolve_target_ids, build_resolver, ClaimArgs};
use beads_core::error::BeadsError;
use beads_core::lease::{generate_lease_id, hex_encode, lease_expires_at, DEFAULT_LEASE_TTL_SECS};
use beads_core::model::{Issue, IssueType, Priority, Status};
use beads_core::resolver::{ConfigLayer, IdResolver, ResolverConfig};
use beads_core::store::Store;
use beads_core::sweep::validate_sweep_args;
use beads_core::text::u64_to_decimal;

fn make_issue(id: &str, hash: &str) -> Issue {
    Issue {
        id: id.to_string(),
        title: format!("title of {id}"),
        status: Status::Open,
        issue_type: IssueType::Bug,
        priority: Priority(2),
        assignee: None,
        labels: Vec::new(),
        acceptance_criteria: None,
        content_hash: hash.to_string(),
        dependencies: Vec::new(),
        external_dependencies: Vec::new(),
        deferred: false,
        pinned: false,
        ephemeral: false,
        created_at: 1,
        lease: None,
    }
}

#[test]
fn claim_unleased_succeeds_second_conflicts() {
    let mut store = Store::new();
    store.add_issue(make_issue("x-1", "aa")).unwrap();

    let first = claim_one(&mut store, "x-1", "alice", "lease-a", 1800, 1000);
    assert!(first.is_ok());

    // A second claim with a different token before expiry loses.
    let second = claim_one(&mut store, "x-1", "bob", "lease-b", 1800, 1500);
    assert!(matches!(second, Err(BeadsError::AlreadyClaimed { .. })));

    // Renewal with the same token stays legal.
    let renewal = claim_one(&mut store, "x-1", "alice", "lease-a", 1800, 1500);
    assert!(renewal.is_ok());
}

#[test]
fn claim_rejects_nonpositive_ttl_without_mutation() {
    let mut store = Store::new();
    store.add_issue(make_issue("x-1", "aa")).unwrap();

    let r = claim_one(&mut store, "x-1", "alice", "lease-a", 0, 1000);
    assert!(matches!(r, Err(BeadsError::Validation { .. })));
    let r = claim_one(&mut store, "x-1", "alice", "lease-a", -5, 1000);
    assert!(matches!(r, Err(BeadsError::Validation { .. })));
    assert!(store.get_issue("x-1").unwrap().lease.is_none());
}

#[test]
fn claim_issues_rejects_lease_id_with_many_targets() {
    let mut store = Store::new();
    store.add_issue(make_issue("x-1", "aa")).unwrap();
    store.add_issue(make_issue("x-2", "bb")).unwrap();
    let args = ClaimArgs {
        ids: vec!["x-1".to_string(), "x-2".to_string()],
        lease_id: Some("forced".to_string()),
        ttl_seconds: 600,
    };
    let ids = vec!["x-1".to_string(), "x-2".to_string()];
    let r = claim_issues(&mut store, &args, "alice", &ids, 1000);
    assert!(matches!(r, Err(BeadsError::Validation { .. })));
    assert!(store.get_issue("x-1").unwrap().lease.is_none());
    assert!(store.get_issue("x-2").unwrap().lease.is_none());
}

#[test]
fn claim_issues_batch_claims_all() {
    let mut store = Store::new();
    store.add_issue(make_issue("x-1", "aa")).unwrap();
    store.add_issue(make_issue("x-2", "bb")).unwrap();
    let args = ClaimArgs { ids: Vec::new(), lease_id: None, ttl_seconds: 600 };
    let ids = vec!["x-1".to_string(), "x-2".to_string()];
    let outs = claim_issues(&mut store, &args, "alice", &ids, 1000).unwrap();
    assert_eq!(outs.len(), 2);
    for out in &outs {
        assert_eq!(out.lease_owner, "alice");
        assert_eq!(out.lease_expires_at, 1600);
        assert_eq!(out.lease_heartbeat_at, 1000);
        assert_eq!(out.lease_id.len(), 32);
    }
    let lease = store.get_issue("x-1").unwrap().lease.unwrap();
    assert_eq!(lease.owner, "alice");
}

#[test]
fn claim_issues_single_with_override_succeeds() {
    let mut store = Store::new();
    store.add_issue(make_issue("x-1", "aa")).unwrap();
    let args = ClaimArgs {
        ids: vec!["x-1".to_string()],
        lease_id: Some("forced".to_string()),
        ttl_seconds: 600,
    };
    let ids = vec!["x-1".to_string()];
    let outs = claim_issues(&mut store, &args, "alice", &ids, 1000).unwrap();
    assert_eq!(outs.len(), 1);
    assert_eq!(outs[0].lease_id, "forced");
    assert_eq!(store.get_issue("x-1").unwrap().lease.unwrap().lease_id, "forced");
}

#[test]
fn release_then_claim_gets_fresh_lease() {
    let mut store = Store::new();
    store.add_issue(make_issue("x-1", "aa")).unwrap();
    claim_one(&mut store, "x-1", "alice", "lease-a", 1800, 1000).unwrap();

    // The wrong token cannot release.
    let r = store.release_issue("x-1", "other");
    assert!(matches!(r, Err(BeadsError::LeaseMismatch { .. })));

    store.release_issue("x-1", "lease-a").unwrap();
    assert!(store.get_issue("x-1").unwrap().lease.is_none());

    let fresh = generate_lease_id();
    let out = claim_one(&mut store, "x-1", "bob", fresh.as_str(), 1800, 2000).unwrap();
    assert_ne!(out.lease_id, "lease-a");
    assert_eq!(store.get_issue("x-1").unwrap().lease.unwrap().lease_id, fresh);
}

#[test]
fn heartbeat_advances_only_live_matching_lease() {
    let mut store = Store::new();
    store.add_issue(make_issue("x-1", "aa")).unwrap();
    claim_one(&mut store, "x-1", "alice", "lease-a", 1800, 1000).unwrap();

    store.heartbeat("x-1", "lease-a", 1600).unwrap();
    let lease = store.get_issue("x-1").unwrap().lease.unwrap();
    assert_eq!(lease.heartbeat_at, 1600);
    assert_eq!(lease.lease_id, "lease-a");

    let r = store.heartbeat("x-1", "wrong", 1700);
    assert!(matches!(r, Err(BeadsError::LeaseMismatch { .. })));

    // Past expiry the heartbeat is refused.
    let r = store.heartbeat("x-1", "lease-a", 5000);
    assert!(matches!(r, Err(BeadsError::LeaseExpired { .. })));
}

#[test]
fn sweep_end_to_end_and_idempotent() {
    let t0: i64 = 10_000;
    let mut store = Store::new();
    store.add_issue(make_issue("x-1", "aa")).unwrap();
    claim_one(&mut store, "x-1", "alice", "lease-a", 1800, t0).unwrap();
    store.heartbeat("x-1", "lease-a", t0 + 600).unwrap();

    // At t0+2000 the lease (expiring at t0+1800) is expired and reclaimed.
    let summary = store.sweep_expired_leases(t0 + 2000, 20 * 60, 40 * 60);
    assert_eq!(summary.expired, 1);
    assert_eq!(summary.reclaimed_leases, 1);
    assert_eq!(summary.stale_marked, 0);
    assert_eq!(summary.orphaned_marked, 0);
    assert!(store.get_issue("x-1").unwrap().lease.is_none());

    // A second pass with the same clock reclaims nothing.
    let again = store.sweep_expired_leases(t0 + 2000, 20 * 60, 40 * 60);
    assert_eq!(again.reclaimed_leases, 0);
    assert_eq!(again.expired, 0);
    assert_eq!(again.orphaned_marked, 0);
}

#[test]
fn sweep_marks_stale_and_reclaims_orphans() {
    let mut store = Store::new();
    store.add_issue(make_issue("x-1", "aa")).unwrap();
    store.add_issue(make_issue("x-2", "bb")).unwrap();
    // Long TTLs so neither lease expires.
    claim_one(&mut store, "x-1", "alice", "lease-a", 100_000, 1000).unwrap();
    claim_one(&mut store, "x-2", "bob", "lease-b", 100_000, 1000).unwrap();
    store.heartbeat("x-2", "lease-b", 50_000).unwrap();

    // At 52_000: x-1 has not heartbeated for 51_000 s (orphaned, past
    // 40_000), x-2 for 2_000 s (stale, past 1_000).
    let summary = store.sweep_expired_leases(52_000, 1_000, 40_000);
    assert_eq!(summary.expired, 0);
    assert_eq!(summary.orphaned_marked, 1);
    assert_eq!(summary.stale_marked, 1);
    assert_eq!(summary.reclaimed_leases, 1);
    assert!(store.get_issue("x-1").unwrap().lease.is_none());
    assert!(store.get_issue("x-2").unwrap().lease.is_some());
}

#[test]
fn sweep_validation_rejects_bad_thresholds() {
    assert!(validate_sweep_args(60, 20, 40).is_ok());
    let r = validate_sweep_args(60, 40, 40);
    assert!(matches!(r, Err(BeadsError::Validation { .. })));
    let r = validate_sweep_args(60, 40, 20);
    assert!(matches!(r, Err(BeadsError::Validation { .. })));
    let r = validate_sweep_args(0, 20, 40);
    assert!(matches!(r, Err(BeadsError::Validation { .. })));
    let r = validate_sweep_args(60, 0, 40);
    assert!(matches!(r, Err(BeadsError::Validation { .. })));
}

#[test]
fn resolver_exact_prefix_and_hash() {
    let mut store = Store::new();
    store.add_issue(make_issue("abc-1", "deadbeef11")).unwrap();
    store.add_issue(make_issue("abc-2", "deadbeef22")).unwrap();

    let resolver = IdResolver::new(ResolverConfig::with_prefix("abc".to_string()));

    // Exact id.
    assert_eq!(resolver.resolve("abc-1", &store).unwrap().id, "abc-1");
    // Prefixed short id.
    assert_eq!(resolver.resolve("2", &store).unwrap().id, "abc-2");
    // A fragment matching both hashes is ambiguous.
    let r = resolver.resolve("deadbeef", &store);
    assert!(matches!(r, Err(BeadsError::Ambiguous { .. })));
    // A fragment matching one hash resolves.
    assert_eq!(resolver.resolve("deadbeef1", &store).unwrap().id, "abc-1");
    // No match at all.
    let r = resolver.resolve("feedface", &store);
    assert!(matches!(r, Err(BeadsError::NotFound { .. })));
}

#[test]
fn resolve_all_fails_fast() {
    let mut store = Store::new();
    store.add_issue(make_issue("abc-1", "deadbeef11")).unwrap();
    let resolver = IdResolver::new(ResolverConfig::with_prefix(String::new()));
    let r = resolver.resolve_all(
        &vec!["abc-1".to_string(), "missing".to_string()],
        &store,
    );
    assert!(matches!(r, Err(BeadsError::NotFound { .. })));
    let rs = resolver.resolve_all(&vec!["abc-1".to_string()], &store).unwrap();
    assert_eq!(rs.len(), 1);
    assert_eq!(rs[0].id, "abc-1");
}

#[test]
fn resolve_target_ids_uses_last_touched() {
    let mut store = Store::new();
    store.add_issue(make_issue("abc-1", "deadbeef11")).unwrap();
    let layer = ConfigLayer { issue_prefix: "abc".to_string(), actor: "alice".to_string() };
    let resolver = build_resolver(&layer, &store);

    let args = ClaimArgs { ids: Vec::new(), lease_id: None, ttl_seconds: 600 };
    let r = resolve_target_ids(&args, "", &resolver, &store);
    assert!(matches!(r, Err(BeadsError::Validation { .. })));

    let ids = resolve_target_ids(&args, "abc-1", &resolver, &store).unwrap();
    assert_eq!(ids, vec!["abc-1".to_string()]);

    let args = ClaimArgs { ids: vec!["1".to_string()], lease_id: None, ttl_seconds: 600 };
    let ids = resolve_target_ids(&args, "", &resolver, &store).unwrap();
    assert_eq!(ids, vec!["abc-1".to_string()]);
}

#[test]
fn lease_id_and_expiry_shapes() {
    let id = generate_lease_id();
    assert_eq!(id.len(), 32);
    assert!(id.chars().all(|c| c.is_ascii_hexdigit() && !c.is_ascii_uppercase()));
    let other = generate_lease_id();
    assert_ne!(id, other);

    assert_eq!(lease_expires_at(1000, DEFAULT_LEASE_TTL_SECS), 1000 + 1800);
    assert_eq!(hex_encode(&vec![0x00, 0xff, 0x1a]), "00ff1a");
    assert_eq!(u64_to_decimal(0), "0");
    assert_eq!(u64_to_decimal(90210), "90210");
}

#[test]
fn acceptance_aggregation_and_exit_code() {
    assert!(validate_acceptance_schema(AcceptanceCriteria { schema: 1, items: Vec::new() }).is_ok());
    assert!(matches!(
        validate_acceptance_schema(AcceptanceCriteria { schema: 2, items: Vec::new() }),
        Err(BeadsError::Validation { .. })
    ));

    assert_eq!(resolve_path("/abs/x", "/root"), "/abs/x");
    assert_eq!(resolve_path("rel/x", "/root"), "/root/rel/x");

    let missing = run_file_step("rel/x", "/root", false);
    assert!(matches!(missing.status, StepStatus::Failed));
    assert_eq!(missing.error.as_deref(), Some("file not found"));
    let found = run_file_step("rel/x", "/root", true);
    assert!(matches!(found.status, StepStatus::Passed));

    let failed_cmd = command_step_result("false", Ok((false, Some(3))));
    assert_eq!(failed_cmd.error.as_deref(), Some("command exited with code 3"));
    let signal_cmd = command_step_result("kill", Ok((false, Some(-9))));
    assert_eq!(signal_cmd.error.as_deref(), Some("command exited with code -9"));
    let no_code = command_step_result("x", Ok((false, None)));
    assert_eq!(no_code.error.as_deref(), Some("command exited with code 1"));

    let item = aggregate_item("a1".to_string(), "does it".to_string(), vec![found, failed_cmd]);
    assert!(matches!(item.status, StepStatus::Failed));
    let empty_item = aggregate_item("a2".to_string(), "by hand".to_string(), Vec::new());
    assert!(matches!(empty_item.status, StepStatus::Manual));

    let report = aggregate_issue("x-1".to_string(), "t".to_string(), vec![item, empty_item]);
    assert!(matches!(report.status, ReportStatus::Failed));

    let mut summary = VerifySummary::new();
    summary.record(report.status);
    summary.record(ReportStatus::Manual);
    assert_eq!(summary.exit_code(true), 1);
    let mut ok = VerifySummary::new();
    ok.record(ReportStatus::Manual);
    assert_eq!(ok.exit_code(true), 0);
    assert_eq!(ok.exit_code(false), 1);
}

#[test]
fn text_report_renders() {
    let empty = VerifyReport { total: 0, passed: 0, failed: 0, manual: 0, issues: Vec::new() };
    assert_eq!(render_text_report(&empty), "No issues verified.\n");

    let item = aggregate_item("a1".to_string(), "check".to_string(), Vec::new());
    let issue = aggregate_issue("x-1".to_string(), "a title".to_string(), vec![item]);
    let report = VerifyReport { total: 1, passed: 0, failed: 0, manual: 1, issues: vec![issue] };
    let text = render_text_report(&report);
    assert!(text.starts_with("Acceptance Criteria Verification\n"));
    assert!(text.contains("Checked: 1  Passed: 0  Manual: 1  Failed: 0"));
    assert!(text.contains("x-1 - a title [manual]"));
    assert!(text.contains("  a1: check [manual]"));
}

#[test]
fn store_rejects_duplicate_ids() {
    let mut store = Store::new();
    store.add_issue(make_issue("x-1", "aa")).unwrap();
    let r = store.add_issue(make_issue("x-1", "bb"));
    assert!(matches!(r, Err(BeadsError::Validation { .. })));
    assert_eq!(store.len(), 1);
}

#[test]
fn claim_missing_issue_not_found() {
    let mut store = Store::new();
    let r = claim_one(&mut store, "nope", "alice", "lease-a", 600, 1000);
    assert!(matches!(r, Err(BeadsError::IssueNotFound { .. })));
}
