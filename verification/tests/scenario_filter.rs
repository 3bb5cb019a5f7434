//! Tag-based scenario filtering.

use beads_core::scenario::{ExecutionMode, FilterResult, Scenario, ScenarioCommand, ScenarioFilter};

fn make_scenario(name: &str, tags: &[&str]) -> Scenario {
    Scenario::new(
        name.to_string(),
        ScenarioCommand::new(vec!["list".to_string()]),
    )
    .with_tags(tags.iter().map(|s| s.to_string()).collect())
}

#[test]
fn test_filter_all() {
    let filter = ScenarioFilter::all();
    let scenario = make_scenario("test", &["quick"]);
    assert!(filter.matches(&scenario));
}

#[test]
fn test_filter_include_tags() {
    let filter = ScenarioFilter::all().with_include_tags(vec!["quick".to_string()]);

    let quick = make_scenario("quick_test", &["quick"]);
    let slow = make_scenario("slow_test", &["slow"]);

    assert!(filter.matches(&quick));
    assert!(!filter.matches(&slow));
}

#[test]
fn test_filter_exclude_tags() {
    let filter =
        ScenarioFilter::all().with_exclude_tags(vec!["slow".to_string(), "stress".to_string()]);

    let quick = make_scenario("quick_test", &["quick"]);
    let slow = make_scenario("slow_test", &["slow"]);
    let stress = make_scenario("stress_test", &["stress"]);

    assert!(filter.matches(&quick));
    assert!(!filter.matches(&slow));
    assert!(!filter.matches(&stress));
}

#[test]
fn test_filter_skip_slow() {
    let filter = ScenarioFilter::all().with_skip_slow(true);

    let quick = make_scenario("quick_test", &["quick"]);
    let slow = make_scenario("slow_test", &["slow"]);

    assert!(filter.matches(&quick));
    assert!(!filter.matches(&slow));
}

#[test]
fn test_filter_ci_preset() {
    let filter = ScenarioFilter::ci();

    let quick = make_scenario("quick_test", &["quick"]);
    let slow = make_scenario("slow_test", &["slow"]);
    let stress = make_scenario("stress_test", &["stress"]);
    let benchmark = make_scenario("bench_test", &["benchmark"]);

    assert!(filter.matches(&quick));
    assert!(!filter.matches(&slow));
    assert!(!filter.matches(&stress));
    assert!(!filter.matches(&benchmark));
}

#[test]
fn test_filter_quick_preset() {
    let filter = ScenarioFilter::quick();

    let quick = make_scenario("quick_test", &["quick"]);
    let slow = make_scenario("slow_test", &["slow"]);
    let other = make_scenario("other_test", &["crud"]);

    assert!(filter.matches(&quick));
    assert!(!filter.matches(&slow));
    assert!(!filter.matches(&other)); // No "quick" tag
}

#[test]
fn test_filter_describe() {
    let filter = ScenarioFilter::all()
        .with_include_tags(vec!["quick".to_string()])
        .with_skip_slow(true);

    let desc = filter.describe();
    assert!(desc.contains("include="));
    assert!(desc.contains("skip_slow"));
}

#[test]
fn test_filter_with_log() {
    let filter = ScenarioFilter::all().with_exclude_tags(vec!["slow".to_string()]);

    let scenarios = vec![
        make_scenario("quick_test", &["quick"]),
        make_scenario("slow_test", &["slow"]),
    ];

    let result: FilterResult = filter.filter_with_log(&scenarios);

    assert_eq!(result.total_count, 2);
    assert_eq!(result.matched_count, 1);
    assert_eq!(result.excluded_count, 1);
    assert!(result.matched_names.contains(&"quick_test".to_string()));
    assert!(result.excluded_names.iter().any(|(n, _)| n == "slow_test"));
}

#[test]
fn test_filter_required_mode() {
    let filter = ScenarioFilter::all().with_required_mode(ExecutionMode::Benchmark);

    let e2e_only = Scenario::new(
        "e2e_test".to_string(),
        ScenarioCommand::new(vec!["list".to_string()]),
    )
    .with_tags(vec!["quick".to_string()])
    .with_modes(vec![ExecutionMode::E2E]);

    let all_modes = Scenario::new(
        "all_test".to_string(),
        ScenarioCommand::new(vec!["list".to_string()]),
    )
    .with_tags(vec!["quick".to_string()])
    .with_modes(vec![ExecutionMode::E2E, ExecutionMode::Benchmark]);

    assert!(!filter.matches(&e2e_only));
    assert!(filter.matches(&all_modes));
}

#[test]
fn test_filter_describe_empty() {
    let filter = ScenarioFilter::all();
    assert_eq!(filter.describe(), "all scenarios");
}

#[test]
fn test_filter_exclusion_reasons() {
    let filter = ScenarioFilter::all().with_exclude_tags(vec!["slow".to_string()]);
    let scenarios = vec![make_scenario("slow_test", &["slow"])];
    let result = filter.filter_with_log(&scenarios);
    assert_eq!(result.excluded_names[0].1, "has excluded tag 'slow'");
}
