//! The ready-queue scheduler: parsing, filtering, ordering, formatting.

use beads_core::model::{Issue, IssueType, Priority, Status};
use beads_core::ready::{
    apply_external_blockers, apply_limit, format_ready_line, parse_priorities, parse_types,
    ExternalStatus, ReadyFilters, ReadySortPolicy,
};
use beads_core::model::ExternalRef;
use beads_core::store::Store;

fn no_filters() -> ReadyFilters {
    ReadyFilters {
        assignee: None,
        unassigned: false,
        labels_and: Vec::new(),
        labels_or: Vec::new(),
        types: None,
        priorities: None,
        include_deferred: false,
        limit: None,
    }
}

fn make_issue(id: &str, priority: u8, created_at: i64) -> Issue {
    Issue {
        id: id.to_string(),
        title: format!("title of {id}"),
        status: Status::Open,
        issue_type: IssueType::Task,
        priority: Priority(priority),
        assignee: None,
        labels: Vec::new(),
        acceptance_criteria: None,
        content_hash: format!("hash-{id}"),
        dependencies: Vec::new(),
        external_dependencies: Vec::new(),
        deferred: false,
        pinned: false,
        ephemeral: false,
        created_at,
        lease: None,
    }
}

#[test]
fn test_parse_types() {
    let t = parse_types(&vec!["bug".to_string(), "feature".to_string()]).expect("parse types");
    assert!(t.is_some());
    let t = t.unwrap();
    assert_eq!(t.len(), 2);
}

#[test]
fn test_parse_priorities() {
    let p = parse_priorities(&vec!["0".to_string(), "P1".to_string(), "2".to_string()])
        .expect("parse priorities")
        .unwrap();
    assert_eq!(p.len(), 3);
    assert_eq!(p[0].0, 0);
    assert_eq!(p[1].0, 1);
    assert_eq!(p[2].0, 2);
}

#[test]
fn test_parse_priorities_invalid() {
    let r = parse_priorities(&vec!["high".to_string()]);
    assert!(r.is_err());
    assert!(r.err().unwrap().is_validation());
}

#[test]
fn test_parse_types_unknown() {
    let r = parse_types(&vec!["nonsense".to_string()]);
    assert!(r.is_err());
    assert!(r.err().unwrap().is_validation());
    assert!(parse_types(&Vec::new()).expect("parse types").is_none());
}

#[test]
fn test_priority_sort_order() {
    // A and B share the top band; A is older, C is very old but low band.
    let mut store = Store::new();
    store.add_issue(make_issue("x-b", 0, 200)).unwrap();
    store.add_issue(make_issue("x-c", 2, 1)).unwrap();
    store.add_issue(make_issue("x-a", 0, 100)).unwrap();

    let ready = store.get_ready_issues(&no_filters(), ReadySortPolicy::Priority, 0);
    let ids: Vec<&str> = ready.iter().map(|i| i.id.as_str()).collect();
    assert_eq!(ids, vec!["x-a", "x-b", "x-c"]);

    let ready = store.get_ready_issues(&no_filters(), ReadySortPolicy::Oldest, 0);
    let ids: Vec<&str> = ready.iter().map(|i| i.id.as_str()).collect();
    assert_eq!(ids, vec!["x-c", "x-a", "x-b"]);

    let ready = store.get_ready_issues(&no_filters(), ReadySortPolicy::Hybrid, 0);
    let ids: Vec<&str> = ready.iter().map(|i| i.id.as_str()).collect();
    assert_eq!(ids, vec!["x-a", "x-b", "x-c"]);
}

#[test]
fn test_blocked_dependency_excluded_then_appears() {
    let mut store = Store::new();
    let mut blocked = make_issue("x-2", 1, 10);
    blocked.dependencies.push("x-1".to_string());
    store.add_issue(make_issue("x-1", 1, 5)).unwrap();
    store.add_issue(blocked.clone()).unwrap();

    let ready = store.get_ready_issues(&no_filters(), ReadySortPolicy::Priority, 0);
    assert!(ready.iter().all(|i| i.id != "x-2"));

    // Resolve the dependency and rebuild: the issue appears.
    let mut store = Store::new();
    let mut dep = make_issue("x-1", 1, 5);
    dep.status = Status::Closed;
    store.add_issue(dep).unwrap();
    store.add_issue(blocked).unwrap();
    let ready = store.get_ready_issues(&no_filters(), ReadySortPolicy::Priority, 0);
    assert!(ready.iter().any(|i| i.id == "x-2"));
}

#[test]
fn test_flags_exclude() {
    let mut store = Store::new();
    let mut pinned = make_issue("x-1", 1, 5);
    pinned.pinned = true;
    let mut deferred = make_issue("x-2", 1, 5);
    deferred.deferred = true;
    store.add_issue(pinned).unwrap();
    store.add_issue(deferred).unwrap();

    let ready = store.get_ready_issues(&no_filters(), ReadySortPolicy::Priority, 0);
    assert!(ready.is_empty());

    let mut with_deferred = no_filters();
    with_deferred.include_deferred = true;
    let ready = store.get_ready_issues(&with_deferred, ReadySortPolicy::Priority, 0);
    let ids: Vec<&str> = ready.iter().map(|i| i.id.as_str()).collect();
    assert_eq!(ids, vec!["x-2"]);
}

#[test]
fn test_external_blockers_exclude() {
    let mut blocked = make_issue("x-1", 1, 5);
    blocked.external_dependencies.push(ExternalRef {
        store_path: "/other".to_string(),
        id: "o-1".to_string(),
    });
    let free = make_issue("x-2", 1, 6);

    // No record for the reference: conservatively unresolved.
    let out = apply_external_blockers(vec![blocked.clone(), free.clone()], &Vec::new());
    let ids: Vec<&str> = out.iter().map(|i| i.id.as_str()).collect();
    assert_eq!(ids, vec!["x-2"]);

    // A resolved record lets it through.
    let ext = vec![ExternalStatus {
        store_path: "/other".to_string(),
        id: "o-1".to_string(),
        resolved: true,
    }];
    let out = apply_external_blockers(vec![blocked, free], &ext);
    let ids: Vec<&str> = out.iter().map(|i| i.id.as_str()).collect();
    assert_eq!(ids, vec!["x-1", "x-2"]);
}

#[test]
fn test_apply_limit() {
    let v = vec![make_issue("a", 0, 1), make_issue("b", 0, 2)];
    assert_eq!(apply_limit(v.clone(), 1).len(), 1);
    assert_eq!(apply_limit(v.clone(), 0).len(), 2);
    assert_eq!(apply_limit(v, 5).len(), 2);
}

#[test]
fn test_label_and_assignee_filters() {
    let mut store = Store::new();
    let mut tagged = make_issue("x-1", 1, 5);
    tagged.labels.push("urgent".to_string());
    tagged.assignee = Some("ada".to_string());
    store.add_issue(tagged).unwrap();
    store.add_issue(make_issue("x-2", 1, 6)).unwrap();

    let mut f = no_filters();
    f.labels_and.push("urgent".to_string());
    let ready = store.get_ready_issues(&f, ReadySortPolicy::Priority, 0);
    let ids: Vec<&str> = ready.iter().map(|i| i.id.as_str()).collect();
    assert_eq!(ids, vec!["x-1"]);

    let mut f = no_filters();
    f.unassigned = true;
    let ready = store.get_ready_issues(&f, ReadySortPolicy::Priority, 0);
    let ids: Vec<&str> = ready.iter().map(|i| i.id.as_str()).collect();
    assert_eq!(ids, vec!["x-2"]);

    let mut f = no_filters();
    f.assignee = Some("ada".to_string());
    let ready = store.get_ready_issues(&f, ReadySortPolicy::Priority, 0);
    let ids: Vec<&str> = ready.iter().map(|i| i.id.as_str()).collect();
    assert_eq!(ids, vec!["x-1"]);
}

#[test]
fn test_format_ready_line_plain() {
    let issue = make_issue("x-1", 1, 5);
    let line = format_ready_line(1, &issue, "unassigned", false, None);
    assert_eq!(line, "1. [P1] x-1 title of x-1 (unassigned)");
}

#[test]
fn test_format_ready_line_width() {
    let issue = make_issue("x-1", 1, 5);
    // Prefix "1. [P1] x-1 " is 12 characters, suffix " (me)" is 5: a
    // width of 22 leaves 5 characters of title.
    let line = format_ready_line(1, &issue, "me", false, Some(22));
    assert_eq!(line, "1. [P1] x-1 title (me)");
}
