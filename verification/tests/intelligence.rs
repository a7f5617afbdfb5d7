//! Failure clusters, flaky tests, durations and health.
use gaffer::cluster::{
    are_similar, cluster_failures, group_failures, levenshtein_distance, normalize_error_message,
    string_similarity, truncate_at_char_boundary, FailedTest, Fingerprint, Share,
};
use gaffer::duration::{analyze_duration, calculate_percentile};
use gaffer::flaky::{detect_flaky_tests, detect_from_fingerprints, HistoricalTest};
use gaffer::health::{calculate_health_score, earlier_score, get_health_label, Points};

fn ratio(s: &Share) -> f64 {
    s.part as f64 / s.whole as f64
}

fn hundredths(n: u128) -> f64 {
    n as f64 / 100.0
}

// ----- edit distance ---------------------------------------------------------------------------

#[test]
fn levenshtein_identical_strings() {
    assert_eq!(levenshtein_distance("hello", "hello"), 0);
}

#[test]
fn levenshtein_empty_strings() {
    assert_eq!(levenshtein_distance("", ""), 0);
    assert_eq!(levenshtein_distance("abc", ""), 3);
    assert_eq!(levenshtein_distance("", "abc"), 3);
}

#[test]
fn levenshtein_single_edit() {
    assert_eq!(levenshtein_distance("kitten", "sitten"), 1);
    assert_eq!(levenshtein_distance("kitten", "kittens"), 1);
}

#[test]
fn levenshtein_known_distance() {
    assert_eq!(levenshtein_distance("kitten", "sitting"), 3);
}

#[test]
fn distances_are_a_metric() {
    let words = ["", "flaw", "lawn", "naïve", "kitten", "sitting"];
    for a in words {
        for b in words {
            let d = levenshtein_distance(a, b);
            assert_eq!(d, levenshtein_distance(b, a));
            assert_eq!(d == 0, a == b);
            assert!(d <= a.len().max(b.len()));
            for c in words {
                assert!(levenshtein_distance(a, c) <= d + levenshtein_distance(b, c));
            }
        }
    }
    assert_eq!(levenshtein_distance("flaw", "lawn"), 2);
    assert_eq!(levenshtein_distance("naïve", "naive"), 2);
}

#[test]
fn similarity_identical() {
    assert!((ratio(&string_similarity("hello", "hello")) - 1.0).abs() < f64::EPSILON);
}

#[test]
fn similarity_completely_different() {
    let sim = ratio(&string_similarity("abc", "xyz"));
    assert!(sim < 0.5);
}

#[test]
fn similarity_is_exact() {
    let s = string_similarity("kitten", "sitting");
    assert_eq!((s.part, s.whole), (4, 7));
    assert!(!are_similar("kitten", "sitting"));
    assert!(are_similar("abcdefghij", "abcdefgxyz"));
    assert!(!are_similar("abcdefghij", "abcdefwxyz"));
    assert!(are_similar("", ""));
}

// ----- error messages --------------------------------------------------------------------------

#[test]
fn normalizes_uuids() {
    let msg = "Failed for user 123e4567-e89b-12d3-a456-426614174000";
    let result = normalize_error_message(msg);
    assert!(result.contains("<uuid>"));
    assert!(!result.contains("123e4567"));
}

#[test]
fn normalizes_timestamps() {
    let msg = "Error at 2026-01-15T10:30:00Z";
    let result = normalize_error_message(msg);
    assert!(result.contains("<timestamp>"));
}

#[test]
fn normalizes_hex_addresses() {
    let msg = "Segfault at 0xDEADBEEF";
    let result = normalize_error_message(msg);
    assert!(result.contains("<address>"));
}

#[test]
fn normalizes_large_numbers() {
    let msg = "User 12345 not found";
    let result = normalize_error_message(msg);
    assert!(result.contains("<id>"));
}

#[test]
fn normalizes_id_equals() {
    let msg = "Failed for id=42";
    let result = normalize_error_message(msg);
    assert!(result.contains("id=<id>"));
}

#[test]
fn normalized_messages_are_exact() {
    assert_eq!(normalize_error_message("User 12345 not found"), "User <id> not found");
    assert_eq!(normalize_error_message("  plain 123  "), "plain 123");
}

#[test]
fn truncation_keeps_whole_characters() {
    assert_eq!(truncate_at_char_boundary("short", 10), "short");
    assert_eq!(truncate_at_char_boundary("abcdef", 4), "abcd");
    assert_eq!(truncate_at_char_boundary("aé", 2), "a");
    assert_eq!(truncate_at_char_boundary("é", 1), "");
}

// ----- clusters --------------------------------------------------------------------------------

fn make_failure(name: &str, error: &str) -> FailedTest {
    FailedTest {
        name: name.to_string(),
        file_path: "src/test.ts".to_string(),
        error: error.to_string(),
    }
}

#[test]
fn empty_input_returns_empty() {
    assert!(cluster_failures(&vec![]).is_empty());
}

#[test]
fn single_failure_creates_single_cluster() {
    let clusters = cluster_failures(&vec![make_failure("test_a", "Expected 200, got 500")]);
    assert_eq!(clusters.len(), 1);
    assert_eq!(clusters[0].count, 1);
    assert_eq!(clusters[0].test_names, vec!["test_a"]);
}

#[test]
fn similar_errors_cluster_together() {
    let clusters = cluster_failures(&vec![
        make_failure("test_a", "Expected status 200, got 500"),
        make_failure("test_b", "Expected status 200, got 500"),
        make_failure("test_c", "Expected status 200, got 502"),
    ]);
    assert_eq!(clusters.len(), 1);
    assert_eq!(clusters[0].count, 3);
}

#[test]
fn different_errors_create_separate_clusters() {
    let clusters = cluster_failures(&vec![
        make_failure("test_a", "Connection timeout after 30s"),
        make_failure("test_b", "Cannot read property 'foo' of undefined"),
    ]);
    assert_eq!(clusters.len(), 2);
}

#[test]
fn tests_without_errors_grouped_by_file() {
    let silent = |name: &str| FailedTest {
        name: name.to_string(),
        file_path: "src/auth.test.ts".to_string(),
        error: String::new(),
    };
    let clusters = cluster_failures(&vec![silent("test_a"), silent("test_b")]);
    assert_eq!(clusters.len(), 1);
    assert!(clusters[0].pattern.contains("auth.test.ts"));
    assert_eq!(clusters[0].count, 2);
}

#[test]
fn sorted_by_count_descending() {
    let clusters = cluster_failures(&vec![
        make_failure("test_a", "Error A specific message here"),
        make_failure("test_b", "Error B something completely different and unrelated to A"),
        make_failure("test_c", "Error B something completely different and unrelated to A too"),
        make_failure("test_d", "Error B something completely different and unrelated to A also"),
    ]);
    assert!(clusters.len() >= 2);
    assert!(clusters[0].count >= clusters[1].count);
}

#[test]
fn every_failure_has_one_home() {
    let failures = vec![
        make_failure("a", "x"),
        make_failure("b", ""),
        make_failure("c", "x"),
        make_failure("d", "yyyyyy"),
    ];
    let prints = vec![
        Fingerprint::Message("x".to_string()),
        Fingerprint::Silent("src/test.ts".to_string()),
        Fingerprint::Message("x".to_string()),
        Fingerprint::Message("yyyyyy".to_string()),
    ];
    let clusters = group_failures(&failures, &prints);
    let total: u32 = clusters.iter().map(|c| c.count).sum();
    assert_eq!(total, 4);
    assert_eq!(clusters[0].pattern, "x");
    assert_eq!(clusters[0].test_names, vec!["a", "c"]);
    assert_eq!(clusters[0].file_paths, vec!["src/test.ts"]);
    let names: Vec<&String> = clusters.iter().flat_map(|c| c.test_names.iter()).collect();
    assert_eq!(names.len(), 4);
    assert!(clusters.iter().any(|c| c.pattern.contains("src/test.ts")));
}

// ----- flaky tests -----------------------------------------------------------------------------

fn make_test(name: &str, status: &str, run_id: &str, started_at: &str) -> HistoricalTest {
    HistoricalTest {
        name: name.to_string(),
        status: status.to_string(),
        duration: 100_000_000,
        file_path: "src/test.ts".to_string(),
        run_id: run_id.to_string(),
        started_at: started_at.to_string(),
        error_message: None,
    }
}

fn make_failed_test(name: &str, run_id: &str, started_at: &str, error: &str) -> HistoricalTest {
    HistoricalTest {
        name: name.to_string(),
        status: "failed".to_string(),
        duration: 100_000_000,
        file_path: "src/test.ts".to_string(),
        run_id: run_id.to_string(),
        started_at: started_at.to_string(),
        error_message: Some(error.to_string()),
    }
}

fn day(i: usize) -> String {
    format!("2026-01-{:02}T00:00:00Z", i + 1)
}

fn alternating(name: &str, n: usize) -> Vec<HistoricalTest> {
    (0..n)
        .map(|i| {
            let status = if i % 2 == 0 { "passed" } else { "failed" };
            make_test(name, status, &format!("run-{}", i), &day(i))
        })
        .collect()
}

fn steady(name: &str, status: &str) -> Vec<HistoricalTest> {
    (0..10).map(|i| make_test(name, status, &format!("run-{}", i), &day(i))).collect()
}

fn failing(name: &str, errors: &[&str]) -> Vec<HistoricalTest> {
    errors
        .iter()
        .enumerate()
        .map(|(i, err)| make_failed_test(name, &format!("run-{}", i), &day(i), err))
        .collect()
}

fn composite(score: u32) -> f64 {
    score as f64 / 100.0
}

#[test]
fn detects_flaky_test_with_alternating_results() {
    let result = detect_flaky_tests(&alternating("flaky_test", 6));
    assert_eq!(result.len(), 1);
    assert_eq!(result[0].test_name, "flaky_test");
    assert!((ratio(&result[0].flip_rate) - 1.0).abs() < f64::EPSILON);
    assert_eq!(result[0].flip_count, 5);
    assert_eq!(result[0].total_runs, 6);
    assert_eq!(result[0].last_flipped_at, Some(day(5)));
    assert_eq!(result[0].composite_score, 60);
}

#[test]
fn ignores_stable_passing_test() {
    assert!(detect_flaky_tests(&steady("stable_test", "passed")).is_empty());
}

#[test]
fn ignores_stable_failing_test() {
    assert!(detect_flaky_tests(&steady("broken_test", "failed")).is_empty());
}

#[test]
fn requires_minimum_sample_size() {
    let history = vec![
        make_test("test", "passed", "run-1", "2026-01-01T00:00:00Z"),
        make_test("test", "failed", "run-2", "2026-01-02T00:00:00Z"),
        make_test("test", "passed", "run-3", "2026-01-03T00:00:00Z"),
    ];
    assert!(detect_flaky_tests(&history).is_empty());
}

#[test]
fn returns_empty_for_no_history() {
    assert!(detect_flaky_tests(&vec![]).is_empty());
}

#[test]
fn skips_non_pass_fail_statuses() {
    let mut history = alternating("test", 6);
    for i in 0..5 {
        history.push(make_test(
            "test",
            "skipped",
            &format!("run-skip-{}", i),
            &format!("2026-02-{:02}T00:00:00Z", i + 1),
        ));
    }
    let result = detect_flaky_tests(&history);
    assert_eq!(result.len(), 1);
    assert_eq!(result[0].total_runs, 6);
}

#[test]
fn composite_score_is_bounded() {
    let result = detect_flaky_tests(&alternating("test", 10));
    assert_eq!(result.len(), 1);
    assert!(composite(result[0].composite_score) >= 0.0);
    assert!(composite(result[0].composite_score) <= 1.0);
}

#[test]
fn detects_always_failing_with_variant_errors() {
    let history: Vec<HistoricalTest> = (0..6)
        .map(|i| {
            let error = if i % 2 == 0 {
                "Target page, context or browser has been closed"
            } else {
                "expect(getByText('3/6 complete')).toBeVisible() failed"
            };
            make_failed_test(
                "Progress Updates > shows progress as steps are completed",
                &format!("run-{}", i),
                &day(i),
                error,
            )
        })
        .collect();
    let result = detect_flaky_tests(&history);
    assert_eq!(result.len(), 1, "variant-error test should be flagged flaky despite zero flips");
    assert_eq!(ratio(&result[0].flip_rate), 0.0);
    assert!(
        (composite(result[0].composite_score) - 0.45).abs() < 0.01,
        "expected composite ~0.45 for 2 distinct error patterns + full failure, got {}",
        result[0].composite_score
    );
}

#[test]
fn ignores_always_failing_with_same_error() {
    let result =
        detect_flaky_tests(&failing("broken_test", &["AssertionError: expected 200 got 500"; 6]));
    assert!(
        result.is_empty(),
        "a deterministically-failing test with one error pattern is not flaky"
    );
}

#[test]
fn requires_minimum_sample_size_for_variance() {
    let history = vec![
        make_failed_test("test", "run-1", "2026-01-01T00:00:00Z", "Connection refused"),
        make_failed_test("test", "run-2", "2026-01-02T00:00:00Z", "Timeout exceeded"),
        make_failed_test("test", "run-3", "2026-01-03T00:00:00Z", "404 Not Found"),
        make_failed_test("test", "run-4", "2026-01-04T00:00:00Z", "Permission denied"),
    ];
    assert!(
        detect_flaky_tests(&history).is_empty(),
        "variance below MIN_SAMPLE_SIZE total runs should not flag"
    );
}

#[test]
fn ignores_empty_string_error_messages() {
    let result = detect_flaky_tests(&failing("instrumentation_gap_test", &[""; 6]));
    assert!(result.is_empty(), "empty error_message strings must not contribute distinct patterns");
}

#[test]
fn flip_and_variance_signals_compose_in_composite() {
    let name = "mixed_signals_test";
    let history = vec![
        make_test(name, "passed", "run-1", "2026-01-01T00:00:00Z"),
        make_failed_test(name, "run-2", "2026-01-02T00:00:00Z", "Error A"),
        make_failed_test(name, "run-3", "2026-01-03T00:00:00Z", "Error B"),
        make_failed_test(name, "run-4", "2026-01-04T00:00:00Z", "Error A"),
        make_failed_test(name, "run-5", "2026-01-05T00:00:00Z", "Error C"),
        make_failed_test(name, "run-6", "2026-01-06T00:00:00Z", "Error A"),
    ];
    let result = detect_flaky_tests(&history);
    assert_eq!(result.len(), 1);
    assert!(
        (composite(result[0].composite_score) - 0.51).abs() < 0.01,
        "expected composite ~0.51 for combined flip + variance, got {}",
        result[0].composite_score
    );
}

#[test]
fn normalize_collapses_timestamp_variance_in_error_messages() {
    let history: Vec<HistoricalTest> = (0..6)
        .map(|i| {
            make_failed_test(
                "timestamped_failure_test",
                &format!("run-{}", i),
                &day(i),
                &format!("Request failed at 2026-01-15T10:30:{:02}Z", 40 + i),
            )
        })
        .collect();
    assert!(
        detect_flaky_tests(&history).is_empty(),
        "timestamp-variant errors should normalize to one fingerprint"
    );
}

#[test]
fn variance_score_in_linear_region() {
    let errors = ["Error A", "Error B", "Error C", "Error D", "Error A"];
    let result = detect_flaky_tests(&failing("linear_variance_test", &errors));
    assert_eq!(result.len(), 1);
    assert!(
        (composite(result[0].composite_score) - 0.55).abs() < 0.01,
        "expected composite ~0.55 for 4 distinct patterns + full failure, got {}",
        result[0].composite_score
    );
}

#[test]
fn variance_score_scales_with_distinct_patterns() {
    let errors = [
        "Connection refused",
        "Timeout exceeded",
        "404 Not Found",
        "Permission denied",
        "Out of memory",
    ];
    let result = detect_flaky_tests(&failing("saturated_variance_test", &errors));
    assert_eq!(result.len(), 1);
    assert!(
        (composite(result[0].composite_score) - 0.6).abs() < 0.01,
        "expected composite ~0.6 for max variance + full failure, got {}",
        result[0].composite_score
    );
}

#[test]
fn sorts_by_composite_score_descending() {
    let mut history = alternating("very_flaky", 10);
    for i in 0..10 {
        let status = if i < 7 { "passed" } else { "failed" };
        history.push(make_test("somewhat_flaky", status, &format!("run-{}", i), &day(i)));
    }
    let result = detect_flaky_tests(&history);
    assert!(result.len() >= 1);
    if result.len() >= 2 {
        assert!(result[0].composite_score >= result[1].composite_score);
    }
}

#[test]
fn given_fingerprints_decide_variance() {
    let history = failing("t", &["e"; 5]);
    let same = vec!["p".to_string(); 5];
    assert!(detect_from_fingerprints(&history, &same).is_empty());
    let mut two = same.clone();
    two[4] = "q".to_string();
    let result = detect_from_fingerprints(&history, &two);
    assert_eq!(result.len(), 1);
    assert_eq!(result[0].composite_score, 45);
    assert_eq!(result[0].last_flipped_at, None);
}

// ----- durations -------------------------------------------------------------------------------

fn timed(name: &str, ms: u64) -> (String, String, u64) {
    (name.to_string(), "src/test.ts".to_string(), ms * 1_000_000)
}

fn one_to(n: u64) -> Vec<(String, String, u64)> {
    (1..=n).map(|i| timed(&format!("test_{}", i), i)).collect()
}

#[test]
fn empty_input() {
    let result = analyze_duration(&vec![]);
    assert_eq!(hundredths(result.p50), 0.0);
    assert_eq!(hundredths(result.mean), 0.0);
    assert!(result.slowest_tests.is_empty());
}

#[test]
fn single_test() {
    let tests = vec![("test_a".to_string(), "src/a.ts".to_string(), 100_000_000)];
    let result = analyze_duration(&tests);
    assert_eq!(hundredths(result.p50), 100.0);
    assert_eq!(hundredths(result.p95), 100.0);
    assert_eq!(hundredths(result.mean), 100.0);
    assert_eq!(result.slowest_tests.len(), 1);
    assert_eq!(result.slowest_tests[0].test_name, "test_a");
}

#[test]
fn percentiles_with_known_dataset() {
    let result = analyze_duration(&one_to(10));
    assert!((hundredths(result.mean) - 5.5).abs() < 0.01);
    assert!((hundredths(result.p50) - 5.5).abs() < 0.01);
    assert!((hundredths(result.p95) - 9.55).abs() < 0.01);
}

#[test]
fn slowest_tests_limited_to_10() {
    let result = analyze_duration(&one_to(20));
    assert_eq!(result.slowest_tests.len(), 10);
    assert_eq!(result.slowest_tests[0].duration, 20_000_000);
}

#[test]
fn slowest_tests_sorted_by_duration_desc() {
    let tests = vec![timed("fast", 10), timed("slow", 1000), timed("medium", 100)];
    let result = analyze_duration(&tests);
    assert_eq!(result.slowest_tests[0].test_name, "slow");
    assert_eq!(result.slowest_tests[1].test_name, "medium");
    assert_eq!(result.slowest_tests[2].test_name, "fast");
}

#[test]
fn percentile_of_two_values() {
    let sorted = vec![10, 20];
    assert_eq!(hundredths(calculate_percentile(&sorted, 0)), 10.0);
    assert_eq!(hundredths(calculate_percentile(&sorted, 50)), 15.0);
    assert_eq!(hundredths(calculate_percentile(&sorted, 100)), 20.0);
}

#[test]
fn percentile_of_single_value() {
    let sorted = vec![42];
    assert_eq!(hundredths(calculate_percentile(&sorted, 50)), 42.0);
    assert_eq!(hundredths(calculate_percentile(&sorted, 95)), 42.0);
}

#[test]
fn percentile_rank_is_reasonable() {
    let result = analyze_duration(&one_to(100));
    assert!(hundredths(result.slowest_tests[0].percentile) >= 99.0);
}

#[test]
fn percentiles_stay_between_the_extremes() {
    let sorted = vec![3, 8, 20, 21, 500];
    for p in 0..=100 {
        let v = calculate_percentile(&sorted, p);
        assert!(300 <= v && v <= 50_000);
    }
    assert_eq!(calculate_percentile(&sorted, 90), 30_840);
}

// ----- health ----------------------------------------------------------------------------------

fn points(tenths: i64) -> Points {
    Points { num: tenths, den: 10 }
}

#[test]
fn perfect_score() {
    let result = calculate_health_score(100, 100, 0, None);
    assert_eq!(result.score, 95);
    assert_eq!(result.label, "excellent");
    assert_eq!(result.trend, "stable");
}

#[test]
fn zero_total_returns_critical() {
    let result = calculate_health_score(0, 0, 0, None);
    assert_eq!(result.score, 0);
    assert_eq!(result.label, "critical");
}

#[test]
fn all_failing_tests() {
    let result = calculate_health_score(100, 0, 0, None);
    assert_eq!(result.score, 35);
    assert_eq!(result.label, "poor");
}

#[test]
fn high_flaky_rate() {
    let result = calculate_health_score(100, 90, 50, None);
    assert_eq!(result.score, 74);
    assert_eq!(result.label, "fair");
}

#[test]
fn improving_trend() {
    let result = calculate_health_score(100, 100, 0, Some(points(600)));
    assert_eq!(result.trend, "improving");
    assert_eq!(result.score, 100);
    assert_eq!(result.label, "excellent");
}

#[test]
fn declining_trend() {
    let result = calculate_health_score(100, 50, 0, Some(points(950)));
    assert_eq!(result.trend, "declining");
    assert_eq!(result.score, 60);
}

#[test]
fn stable_trend_within_threshold() {
    let result = calculate_health_score(100, 100, 0, Some(points(930)));
    assert_eq!(result.trend, "stable");
}

#[test]
fn label_boundaries() {
    assert_eq!(get_health_label(points(1000)), "excellent");
    assert_eq!(get_health_label(points(900)), "excellent");
    assert_eq!(get_health_label(points(899)), "good");
    assert_eq!(get_health_label(points(750)), "good");
    assert_eq!(get_health_label(points(749)), "fair");
    assert_eq!(get_health_label(points(500)), "fair");
    assert_eq!(get_health_label(points(499)), "poor");
    assert_eq!(get_health_label(points(250)), "poor");
    assert_eq!(get_health_label(points(249)), "critical");
    assert_eq!(get_health_label(points(0)), "critical");
}

#[test]
fn scores_grow_with_passes() {
    let mut last = -1;
    for passed in 0..=40 {
        let score = calculate_health_score(40, passed, 3, None).score;
        assert!(last <= score && score <= 100);
        last = score;
    }
}

#[test]
fn earlier_runs_have_a_score() {
    let p = earlier_score(100, 80).unwrap();
    assert_eq!(p.num as f64 / p.den as f64, 80.0 * 0.6 + 100.0 * 0.3 + 50.0 * 0.1);
    assert!(earlier_score(0, 0).is_none());
}

#[test]
fn undecided_executions_change_no_report() {
    let mut history = alternating("flaky_test", 8);
    history.extend(failing("other", &["disk full", "timeout", "disk full", "timeout", "oom"]));
    let mut padded = Vec::new();
    for (i, t) in history.iter().enumerate() {
        for status in ["skipped", "todo"] {
            padded.push(make_test(&t.name, status, &format!("run-x{i}"), "2026-03-01T00:00:00Z"));
        }
        padded.push(HistoricalTest {
            name: t.name.clone(),
            status: t.status.clone(),
            duration: t.duration,
            file_path: t.file_path.clone(),
            run_id: t.run_id.clone(),
            started_at: t.started_at.clone(),
            error_message: t.error_message.clone(),
        });
    }
    padded.push(make_test("third", "skipped", "run-y", "2026-03-02T00:00:00Z"));
    let a = detect_flaky_tests(&history);
    let b = detect_flaky_tests(&padded);
    assert_eq!(a.len(), 2);
    assert_eq!(b.len(), 2);
    for (x, y) in a.iter().zip(&b) {
        assert_eq!(x.test_name, y.test_name);
        assert_eq!(x.file_path, y.file_path);
        assert_eq!((x.flip_rate.part, x.flip_rate.whole), (y.flip_rate.part, y.flip_rate.whole));
        assert_eq!(x.flip_count, y.flip_count);
        assert_eq!(x.total_runs, y.total_runs);
        assert_eq!(x.composite_score, y.composite_score);
        assert_eq!(x.last_flipped_at, y.last_flipped_at);
    }
}
