//! Runs: recording, comparing, analysing and sending them.
use gaffer::error::GafferError;
use gaffer::escape::{escape_like, toml_escape};
use gaffer::flaky::HistoricalTest;
use gaffer::cluster::FailedTest;
use gaffer::run::{
    accepted, build_ingest_payload, check_status, compare_run, compute_intelligence,
    convert_test_case, end_run, get_test_intelligence, ingest_url, query_health, query_slowest,
    summarize_tests, sync_result, target_run, BaselineRun, ComparisonResult, CoverageMetrics,
    CoverageSummary, Delivery, FileCoverageEntry, RunMetadata, RunRecord, RunReport, RunSummary,
    SyncResult, TestCase, TestEvent, TestStatus,
};
use gaffer::status;

const MS: u64 = 1_000_000;

/// A run's summary, and the names and statuses of its tests.
fn run_of(tests: &[(&str, &str, u64)]) -> (Vec<(String, String)>, RunSummary) {
    let passed = tests.iter().filter(|t| t.1 == status::PASSED).count() as i32;
    let failed = tests.iter().filter(|t| t.1 == status::FAILED).count() as i32;
    let total = tests.len() as i32;
    let summary = RunSummary {
        total,
        passed,
        failed,
        skipped: total - passed - failed,
        duration: tests.iter().map(|t| t.2 * MS).sum(),
    };
    (tests.iter().map(|t| (t.0.to_string(), t.1.to_string())).collect(), summary)
}

fn baseline_of(id: &str, tests: &[(&str, &str, u64)]) -> Option<BaselineRun> {
    let (statuses, summary) = run_of(tests);
    Some(BaselineRun { run_id: id.to_string(), statuses, summary })
}

fn compared(
    baseline: &[(&str, &str, u64)],
    current: &[(&str, &str, u64)],
) -> ComparisonResult {
    let (statuses, summary) = run_of(current);
    compare_run("main", &statuses, &summary, &baseline_of("base", baseline)).unwrap()
}

#[test]
fn compare_run_returns_none_when_no_baseline() {
    let (statuses, summary) = run_of(&[("test_a", status::PASSED, 100)]);
    assert!(compare_run("main", &statuses, &summary, &None).is_none());
}

#[test]
fn compare_run_detects_new_failures() {
    let result = compared(
        &[("test_a", status::PASSED, 100), ("test_b", status::PASSED, 100)],
        &[("test_a", status::FAILED, 100), ("test_b", status::PASSED, 100)],
    );
    assert_eq!(result.new_failures, vec!["test_a"]);
    assert!(result.fixed.is_empty());
    assert!(result.pre_existing_failures.is_empty());
}

#[test]
fn compare_run_detects_fixed_tests() {
    let result =
        compared(&[("test_a", status::FAILED, 100)], &[("test_a", status::PASSED, 100)]);
    assert!(result.new_failures.is_empty());
    assert_eq!(result.fixed, vec!["test_a"]);
    assert!(result.pre_existing_failures.is_empty());
}

#[test]
fn compare_run_detects_pre_existing_failures() {
    let result =
        compared(&[("test_a", status::FAILED, 100)], &[("test_a", status::FAILED, 100)]);
    assert!(result.new_failures.is_empty());
    assert!(result.fixed.is_empty());
    assert_eq!(result.pre_existing_failures, vec!["test_a"]);
}

#[test]
fn compare_run_computes_deltas() {
    let baseline = [
        ("t1", status::PASSED, 100),
        ("t2", status::PASSED, 100),
        ("t3", status::PASSED, 100),
        ("t4", status::PASSED, 100),
        ("t5", status::PASSED, 100),
        ("t6", status::PASSED, 100),
        ("t7", status::PASSED, 100),
        ("t8", status::PASSED, 100),
        ("t9", status::FAILED, 100),
        ("t10", status::FAILED, 100),
    ];
    let current = [
        ("t1", status::PASSED, 125),
        ("t2", status::PASSED, 125),
        ("t3", status::PASSED, 125),
        ("t4", status::PASSED, 125),
        ("t5", status::PASSED, 125),
        ("t6", status::PASSED, 125),
        ("t7", status::PASSED, 125),
        ("t8", status::PASSED, 125),
        ("t9", status::PASSED, 125),
        ("t10", status::FAILED, 125),
        ("t11", status::PASSED, 125),
        ("t12", status::PASSED, 125),
    ];
    let result = compared(&baseline, &current);
    let delta = result.pass_rate_delta.num as f64 / result.pass_rate_delta.den as f64;
    assert!((delta - 11.67).abs() < 0.1);
    assert!((result.duration_delta as f64 / MS as f64 - 500.0).abs() < 0.01);
    assert_eq!(result.total_delta, 2);
}

#[test]
fn compare_run_same_branch_excludes_current() {
    // Both runs stand on main: the earlier one is the baseline, the later one is judged.
    let result =
        compared(&[("test_a", status::PASSED, 100)], &[("test_a", status::FAILED, 100)]);
    assert_eq!(result.new_failures, vec!["test_a"]);
}

#[test]
fn compare_run_new_test_absent_from_baseline_is_new_failure() {
    let result = compared(
        &[("test_a", status::PASSED, 100)],
        &[("test_a", status::PASSED, 100), ("test_b", status::FAILED, 100)],
    );
    assert_eq!(result.new_failures, vec!["test_b"]);
    assert!(result.fixed.is_empty());
    assert!(result.pre_existing_failures.is_empty());
}

#[test]
fn compare_run_removed_test_not_in_fixed() {
    let result = compared(
        &[("test_a", status::FAILED, 100), ("test_b", status::PASSED, 100)],
        &[("test_b", status::PASSED, 100)],
    );
    assert!(result.new_failures.is_empty());
    assert!(result.fixed.is_empty());
    assert!(result.pre_existing_failures.is_empty());
}

#[test]
fn compare_run_populates_baseline_fields() {
    let (statuses, summary) = run_of(&[("test_a", status::PASSED, 100)]);
    let baseline = baseline_of("run-7", &[("test_a", status::PASSED, 100)]);
    let result = compare_run("main", &statuses, &summary, &baseline).unwrap();
    assert_eq!(result.baseline_branch, "main");
    assert_eq!(result.baseline_run_id, "run-7");
}

#[test]
fn compare_run_skipped_test_not_classified_as_failure() {
    let result =
        compared(&[("test_a", status::PASSED, 100)], &[("test_a", status::SKIPPED, 0)]);
    assert!(result.new_failures.is_empty());
    assert!(result.fixed.is_empty());
    assert!(result.pre_existing_failures.is_empty());
}

#[test]
fn compare_run_retry_uses_last_status() {
    let statuses = vec![
        ("test_a".to_string(), status::FAILED.to_string()),
        ("test_a".to_string(), status::PASSED.to_string()),
    ];
    let summary = RunSummary { total: 1, passed: 1, failed: 0, skipped: 0, duration: 150 * MS };
    let baseline = baseline_of("base", &[("test_a", status::PASSED, 100)]);
    let result = compare_run("main", &statuses, &summary, &baseline).unwrap();
    assert!(result.new_failures.is_empty());
    assert!(result.fixed.is_empty());
}

#[test]
fn failures_are_listed_once_in_one_group() {
    let tests = [
        ("a", status::FAILED, 1),
        ("b", status::PASSED, 1),
        ("c", status::FAILED, 1),
        ("c", status::FAILED, 1),
    ];
    let before = [("a", status::FAILED, 1), ("b", status::FAILED, 1), ("c", status::PASSED, 1)];
    let result = compared(&before, &tests);
    assert_eq!(result.pre_existing_failures, vec!["a"]);
    assert_eq!(result.fixed, vec!["b"]);
    assert_eq!(result.new_failures, vec!["c"]);
}

#[test]
fn empty_runs_have_no_pass_rate() {
    let result = compared(&[], &[("a", status::PASSED, 1)]);
    assert_eq!(result.pass_rate_delta.num, 100 * result.pass_rate_delta.den);
}

fn recorded(name: &str, run_id: &str, ms: u64) -> HistoricalTest {
    HistoricalTest {
        name: name.to_string(),
        status: status::PASSED.to_string(),
        duration: ms * MS,
        file_path: "src/test.ts".to_string(),
        run_id: run_id.to_string(),
        started_at: "2026-01-01T00:00:00Z".to_string(),
        error_message: None,
    }
}

#[test]
fn query_slowest_returns_analysis() {
    let history: Vec<HistoricalTest> =
        (1..=5).map(|i| recorded(&format!("test_{}", i), "run-1", i * 100)).collect();
    let analysis = query_slowest(&history, 3).unwrap_or_else(|_| panic!("no analysis"));
    assert_eq!(analysis.slowest_tests.len(), 3);
    assert_eq!(analysis.slowest_tests[0].duration, 500 * MS);
}

#[test]
fn query_slowest_no_data_returns_error() {
    match query_slowest(&vec![], 10) {
        Err(GafferError::NotFound(message)) => {
            assert!(message.contains("No finished runs found"))
        }
        _ => panic!("expected an error"),
    }
}

#[test]
fn intelligence_speaks_of_the_run() {
    let mut history: Vec<HistoricalTest> = Vec::new();
    for i in 0..6 {
        let mut t = recorded("flaky", &format!("run-{}", i), 10 * (i + 1));
        if i % 2 == 1 {
            t.status = status::FAILED.to_string();
        }
        history.push(t);
    }
    let failures = vec![FailedTest {
        name: "flaky".to_string(),
        file_path: "f".to_string(),
        error: "boom".to_string(),
    }];
    let intel = compute_intelligence(&history, &failures, "run-2");
    assert_eq!(intel.flaky_tests.len(), 1);
    assert_eq!(intel.failure_clusters.len(), 1);
    assert_eq!(intel.duration_analysis.slowest_tests.len(), 1);
    assert_eq!(intel.duration_analysis.mean, 3000);
}

fn ended(history: Option<Vec<HistoricalTest>>, failures: Vec<FailedTest>, s: RunSummary) -> RunReport {
    end_run(
        "run-1".to_string(),
        s,
        "2026-01-01T00:00:00Z".to_string(),
        "2026-01-01T00:01:00Z".to_string(),
        &history,
        &failures,
        None,
    )
}

#[test]
fn end_run_returns_intelligence_and_health() {
    let mut t = recorded("test_a", "run-1", 100);
    t.file_path = "src/a.test.ts".to_string();
    let report = ended(Some(vec![t]), vec![], one_passed());
    assert!(report.intelligence.is_some());
    let intel = report.intelligence.unwrap();
    assert!(intel.flaky_tests.is_empty());
    assert!(intel.failure_clusters.is_empty());
    assert_eq!(intel.duration_analysis.slowest_tests.len(), 1);
    assert!(report.health.is_some());
    let health = report.health.unwrap();
    assert!(health.score > 0);
    assert_eq!(health.trend, "stable");
}

#[test]
fn end_run_detects_flaky_tests_across_runs() {
    let mut history: Vec<HistoricalTest> = Vec::new();
    for i in 0..6 {
        let run = format!("run-{}", i);
        let mut t = recorded("test_flaky", &run, 100);
        t.file_path = "src/flaky.test.ts".to_string();
        if i % 2 == 1 {
            t.status = status::FAILED.to_string();
            t.error_message = Some("assertion failed".to_string());
        }
        history.push(t);
        let mut t = recorded("test_stable", &run, 50);
        t.file_path = "src/stable.test.ts".to_string();
        history.push(t);
    }
    let intel = get_test_intelligence(&Some(history), &vec![], "run-5").ok().unwrap();
    assert_eq!(intel.flaky_tests.len(), 1);
    assert_eq!(intel.flaky_tests[0].test_name, "test_flaky");
    let rate = &intel.flaky_tests[0].flip_rate;
    assert!(rate.part as f64 / rate.whole as f64 > 0.5);
}

#[test]
fn runs_end_without_a_history() {
    let report = ended(None, vec![], one_passed());
    assert!(report.intelligence.is_none());
    assert_eq!(report.health.unwrap().score, 95);
    assert_eq!(report.run_id, "run-1");
}

#[test]
fn query_health_returns_score() {
    let history = vec![recorded("test_a", "run-1", 100)];
    let health = query_health(Some((1, 1)), &history, None).ok().unwrap();
    assert!(health.score >= 80);
    assert!(!health.label.is_empty());
}

#[test]
fn query_health_no_data_returns_error() {
    assert!(matches!(query_health(None, &vec![], None), Err(GafferError::NotFound(_))));
}

#[test]
fn query_flaky_returns_empty_for_stable() {
    let history = vec![recorded("test_a", "run-1", 100)];
    assert!(compute_intelligence(&history, &vec![], "run-1").flaky_tests.is_empty());
}

#[test]
fn questions_are_about_one_run() {
    let latest = Some("run-9".to_string());
    assert_eq!(target_run(&Some("run-1".to_string()), &latest).ok().as_deref(), Some("run-1"));
    assert_eq!(target_run(&None, &latest).ok().as_deref(), Some("run-9"));
    assert!(matches!(target_run(&None, &None), Err(GafferError::NotFound(_))));
    assert!(matches!(
        get_test_intelligence(&None, &vec![], "run-1"),
        Err(GafferError::NotFound(_))
    ));
    let history = Some(vec![recorded("test_a", "run-1", 100)]);
    let intel = get_test_intelligence(&history, &vec![], "run-1").ok().unwrap();
    assert_eq!(intel.duration_analysis.slowest_tests.len(), 1);
}

fn event(name: &str, test_status: &str) -> TestEvent {
    TestEvent {
        name: name.to_string(),
        status: test_status.to_string(),
        duration: 100 * MS,
        file_path: Some("src/a.test.ts".to_string()),
        error: None,
        retry_count: None,
        flaky: None,
    }
}

#[test]
fn statuses_are_checked() {
    for s in [status::PASSED, status::FAILED, status::SKIPPED, status::TODO] {
        assert!(check_status(&event("t", s)).is_ok());
    }
    assert!(matches!(check_status(&event("t", "exploded")), Err(GafferError::Parse(_))));
}

#[test]
fn summaries_count_by_status() {
    let tests = vec![
        event("a", status::PASSED),
        event("b", status::FAILED),
        event("c", status::SKIPPED),
        event("d", status::TODO),
        event("e", status::PASSED),
    ];
    let s = summarize_tests(&tests, 42);
    assert_eq!((s.total, s.passed, s.failed, s.skipped, s.duration), (5, 2, 1, 2, 42));
}

fn case(test_status: TestStatus, duration_ms: u64) -> TestCase {
    TestCase {
        full_name: "some test".to_string(),
        status: test_status,
        duration_ms: Some(duration_ms),
        error_message: None,
        file_path: None,
        retry_attempt: None,
    }
}

#[test]
fn convert_test_case_timed_out_maps_to_failed() {
    let mut tc = case(TestStatus::TimedOut, 30000);
    tc.full_name = "slow test".to_string();
    tc.error_message = Some("Timeout exceeded".to_string());
    let result = convert_test_case(tc);
    assert_eq!(result.status, "failed");
    assert_eq!(result.flaky, None);
    assert_eq!(result.error.as_deref(), Some("Timeout exceeded"));
    assert_eq!(result.duration, 30000 * MS);
}

#[test]
fn convert_test_case_flaky_maps_to_passed_with_flaky_flag() {
    let mut tc = case(TestStatus::Flaky, 500);
    tc.full_name = "flaky test".to_string();
    tc.retry_attempt = Some(1);
    let result = convert_test_case(tc);
    assert_eq!(result.status, "passed");
    assert_eq!(result.flaky, Some(true));
    assert_eq!(result.retry_count, Some(1));
}

#[test]
fn other_outcomes_keep_their_names() {
    assert_eq!(convert_test_case(case(TestStatus::Passed, 1)).status, "passed");
    assert_eq!(convert_test_case(case(TestStatus::Failed, 1)).status, "failed");
    assert_eq!(convert_test_case(case(TestStatus::Skipped, 1)).status, "skipped");
}

fn record(finished: Option<&str>) -> RunRecord {
    RunRecord {
        metadata: RunMetadata {
            branch: Some("main".to_string()),
            commit: Some("abc123".to_string()),
            ci_provider: Some("github-actions".to_string()),
            framework: "vitest".to_string(),
        },
        started_at: "2026-02-22T10:00:00Z".to_string(),
        finished_at: finished.map(|s| s.to_string()),
    }
}

fn one_passed() -> RunSummary {
    RunSummary { total: 1, passed: 1, failed: 0, skipped: 0, duration: 100 * MS }
}

#[test]
fn build_ingest_payload_from_run() {
    let payload = build_ingest_payload(
        "run-1".to_string(),
        record(Some("2026-02-22T10:01:00Z")),
        one_passed(),
        vec![event("test_a", status::PASSED)],
        None,
        vec![],
    )
    .unwrap_or_else(|e| panic!("{}", e));
    assert_eq!(payload.run_id, "run-1");
    assert_eq!(payload.framework, "vitest");
    assert_eq!(payload.branch, Some("main".to_string()));
    assert_eq!(payload.tests.len(), 1);
    assert_eq!(payload.tests[0].name, "test_a");
    assert_eq!(payload.summary.total, 1);
    assert!(payload.coverage.is_none());
}

#[test]
fn build_ingest_payload_fails_without_finished_at() {
    let result = build_ingest_payload(
        "run-1".to_string(),
        record(None),
        RunSummary { total: 0, passed: 0, failed: 0, skipped: 0, duration: 0 },
        vec![],
        None,
        vec![],
    );
    assert!(result.is_err());
    assert!(result.err().unwrap().contains("finished_at"));
}

#[test]
fn ingest_payload_includes_coverage_when_present() {
    let coverage = CoverageSummary {
        format: "lcov".to_string(),
        lines: CoverageMetrics { covered: 80, total: 100 },
        branches: CoverageMetrics { covered: 20, total: 30 },
        functions: CoverageMetrics { covered: 15, total: 20 },
    };
    let file = FileCoverageEntry {
        path: "src/a.ts".to_string(),
        lines: CoverageMetrics { covered: 8, total: 10 },
        branches: CoverageMetrics { covered: 2, total: 3 },
        functions: CoverageMetrics { covered: 1, total: 2 },
    };
    let payload = build_ingest_payload(
        "run-1".to_string(),
        record(Some("2026-02-22T10:01:00Z")),
        one_passed(),
        vec![event("test_a", status::PASSED)],
        Some(coverage),
        vec![file],
    )
    .unwrap_or_else(|e| panic!("{}", e));
    assert!(payload.coverage.is_some());
    let coverage = payload.coverage.unwrap();
    assert_eq!(coverage.format, "lcov");
    assert_eq!(coverage.lines.covered, 80);
    assert_eq!(coverage.lines.total, 100);
    assert_eq!(coverage.branches.covered, 20);
    assert_eq!(coverage.functions.covered, 15);
    assert_eq!(coverage.files.len(), 1);
}

#[test]
fn deliveries_are_counted() {
    let answered = |code: u16, recorded: bool| Delivery::Answered { status: code, recorded };
    let deliveries =
        Some(vec![answered(202, true), answered(500, true), Delivery::Unreachable]);
    assert_eq!(sync_result(&deliveries), SyncResult { synced: 1, failed: 2 });
    assert_eq!(sync_result(&Some(vec![])), SyncResult { synced: 0, failed: 0 });
    assert!(accepted(202));
    assert!(!accepted(500));
}

#[test]
fn payloads_go_to_the_dashboard() {
    assert_eq!(ingest_url(&None), "https://app.gaffer.sh/api/v1/ingest");
    assert_eq!(ingest_url(&Some("http://h".to_string())), "http://h/api/v1/ingest");
}

#[test]
fn escaped_text_keeps_its_meaning() {
    assert_eq!(escape_like("100%_\\"), "100\\%\\_\\\\");
    assert_eq!(escape_like("plain"), "plain");
    assert_eq!(toml_escape("a\"b\\c\nd\te\r"), "a\\\"b\\\\c\\nd\\te\\r");
}

#[test]
fn only_passing_fixes_a_test() {
    for now in [status::SKIPPED, status::TODO] {
        let result = compared(&[("test_a", status::FAILED, 100)], &[("test_a", now, 100)]);
        assert!(result.fixed.is_empty(), "{now}");
        assert!(result.new_failures.is_empty());
        assert!(result.pre_existing_failures.is_empty());
    }
}

#[test]
fn query_slowest_lists_as_many_as_asked_for() {
    let history: Vec<HistoricalTest> =
        (1..=25).map(|i| recorded(&format!("test_{}", i), "run-1", i * 10)).collect();
    let most = query_slowest(&history, 20).unwrap_or_else(|_| panic!("no analysis"));
    let durations: Vec<u64> = most.slowest_tests.iter().map(|t| t.duration / MS).collect();
    assert_eq!(durations, (6..=25).rev().map(|i| i * 10).collect::<Vec<u64>>());
    let all = query_slowest(&history, 100).unwrap_or_else(|_| panic!("no analysis"));
    assert_eq!(all.slowest_tests.len(), 25);
    let none = query_slowest(&history, 0).unwrap_or_else(|_| panic!("no analysis"));
    assert!(none.slowest_tests.is_empty());
}
