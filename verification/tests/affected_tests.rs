//! Affected tests.
use std::collections::HashMap;

use gaffer::affected::{
    detect_package_manager, find_affected_tests, find_affected_tests_with_graph,
    find_affected_tests_with_graph_cached, find_affected_tests_with_history, is_test_file,
    HistoryCandidate, HistorySignalProvider, NoHistoryProvider, COVERAGE_HISTORY_CONFIDENCE,
};
use gaffer::commands::{
    build_run_argv, compute, compute_with_argv, empty_outcome, print_cmd_outcome, test_request, OnEmpty,
    TestRequest,
};
use gaffer::framework::Framework;
use gaffer::observations::{combine_noisy_or, AffectedTest, CERTAIN};
use gaffer::tree::{ProjectTree, TreeEntry};

fn project(files: &[(&str, &str)]) -> ProjectTree {
    let mut entries: Vec<TreeEntry> = Vec::new();
    let mut dirs: Vec<String> = Vec::new();
    for (path, _) in files {
        let parts: Vec<&str> = path.split('/').collect();
        for n in 1..parts.len() {
            let d = parts[..n].join("/");
            if !dirs.contains(&d) {
                dirs.push(d.clone());
                entries.push(TreeEntry { path: d, is_dir: true, contents: None, mtime: 0 });
            }
        }
    }
    for (path, text) in files {
        entries.push(TreeEntry {
            path: path.to_string(),
            is_dir: false,
            contents: Some(text.to_string()),
            mtime: 1,
        });
    }
    ProjectTree::new("/work/project", entries, vec![])
}

fn names(list: &[&str]) -> Vec<String> {
    list.iter().map(|s| s.to_string()).collect()
}

fn share(c: u64) -> f64 {
    c as f64 / CERTAIN as f64
}

#[test]
fn is_test_file_detects_test_suffixes() {
    assert!(is_test_file("auth.test.ts"));
    assert!(is_test_file("auth.spec.js"));
    assert!(is_test_file("auth_test.go"));
    assert!(is_test_file("test_auth.py"));
    assert!(!is_test_file("auth.ts"));
    assert!(!is_test_file("auth.py"));
}

#[test]
fn is_test_file_recognizes_cargo_integration_tests() {
    assert!(is_test_file("packages/gaffer-parsers/tests/junit_tests.rs"));
    assert!(is_test_file("tests/integration.rs"));
}

#[test]
fn is_test_file_does_not_falsely_flag_underscore_tests_rs_command_files() {
    assert!(!is_test_file("packages/cli/src/commands/affected_tests.rs"));
    assert!(!is_test_file("src/commands/server_tests.rs"));
}

#[test]
fn test_files_are_recognized_in_any_case() {
    assert!(is_test_file("Auth.TEST.ts"));
    assert!(is_test_file("dir/Test_Auth.PY"));
    assert!(!is_test_file("dir/test_/.."));
    assert!(!is_test_file(""));
}

#[test]
fn naming_convention_finds_test_file() {
    let tree = project(&[("src/auth.ts", ""), ("src/auth.test.ts", "")]);
    let results = find_affected_tests(&tree, &names(&["src/auth.ts"]));
    assert_eq!(results.len(), 1);
    assert_eq!(results[0].test_file, "src/auth.test.ts");
    assert_eq!(share(results[0].confidence), 0.9);
    assert_eq!(results[0].strategy, "naming_convention");
}

#[test]
fn naming_convention_finds_spec_file() {
    let tree = project(&[("src/api.ts", ""), ("src/api.spec.ts", "")]);
    let results = find_affected_tests(&tree, &names(&["src/api.ts"]));
    assert_eq!(results.len(), 1);
    assert_eq!(results[0].test_file, "src/api.spec.ts");
}

#[test]
fn naming_convention_python_prefix() {
    let tree = project(&[("src/auth.py", ""), ("src/test_auth.py", "")]);
    let results = find_affected_tests(&tree, &names(&["src/auth.py"]));
    assert_eq!(results.len(), 1);
    assert_eq!(results[0].test_file, "src/test_auth.py");
}

#[test]
fn naming_convention_in_tests_dir() {
    let tree = project(&[("src/auth.ts", ""), ("src/__tests__/auth.test.ts", "")]);
    let results = find_affected_tests(&tree, &names(&["src/auth.ts"]));
    assert_eq!(results.len(), 1);
    assert_eq!(results[0].test_file, "src/__tests__/auth.test.ts");
}

#[test]
fn directory_proximity_finds_nearby_tests() {
    let tree = project(&[("src/utils.ts", ""), ("src/__tests__/api.test.ts", "")]);
    let results = find_affected_tests(&tree, &names(&["src/utils.ts"]));
    assert_eq!(results.len(), 1);
    assert_eq!(share(results[0].confidence), 0.3);
    assert_eq!(results[0].strategy, "directory_proximity");
}

#[test]
fn skips_input_test_files() {
    let tree = project(&[("src/auth.test.ts", "")]);
    let results = find_affected_tests(&tree, &names(&["src/auth.test.ts"]));
    assert!(results.is_empty());
}

#[test]
fn deduplicates_keeping_highest_confidence() {
    let tree = project(&[("src/auth.ts", ""), ("src/__tests__/auth.test.ts", "")]);
    let results = find_affected_tests(&tree, &names(&["src/auth.ts"]));
    assert_eq!(results.len(), 1);
    assert_eq!(share(results[0].confidence), 0.9);
}

#[test]
fn no_matches_returns_empty() {
    let tree = project(&[("src/auth.ts", "")]);
    let results = find_affected_tests(&tree, &names(&["src/auth.ts"]));
    assert!(results.is_empty());
}

#[test]
fn results_are_capped() {
    let mut files: Vec<(String, String)> = vec![("src/a.ts".to_string(), String::new())];
    for i in 0..130 {
        files.push((format!("src/tests/t{}.test.ts", i), String::new()));
    }
    let list: Vec<(&str, &str)> = files.iter().map(|(p, t)| (p.as_str(), t.as_str())).collect();
    let tree = project(&list);
    assert_eq!(find_affected_tests(&tree, &names(&["src/a.ts"])).len(), 100);
    assert_eq!(find_affected_tests_with_graph(&tree, &names(&["src/a.ts"])).len(), 100);
}

#[test]
fn detect_package_manager_pnpm() {
    assert_eq!(detect_package_manager(&project(&[("pnpm-lock.yaml", "")])), "pnpm");
}

#[test]
fn detect_package_manager_yarn() {
    assert_eq!(detect_package_manager(&project(&[("yarn.lock", "")])), "yarn");
}

#[test]
fn detect_package_manager_bun() {
    assert_eq!(detect_package_manager(&project(&[("bun.lockb", "")])), "bun");
}

#[test]
fn detect_package_manager_fallback_npx() {
    assert_eq!(detect_package_manager(&project(&[])), "npx");
}

fn seen(confidence: u64, strategy: &str) -> AffectedTest {
    AffectedTest {
        test_file: "x.test.ts".to_string(),
        confidence,
        strategy: strategy.to_string(),
        source_file: "x.ts".to_string(),
        signals: Vec::new(),
    }
}

#[test]
fn noisy_or_combines_independent_observations() {
    let observations =
        vec![seen(CERTAIN / 10 * 9, "naming_convention"), seen(CERTAIN / 10 * 7, "import_graph")];
    let combined = combine_noisy_or(observations);
    assert!((share(combined.confidence) - 0.97).abs() < 1e-6, "got {}", combined.confidence);
    assert_eq!(combined.confidence, CERTAIN / 100 * 97);
    assert_eq!(combined.strategy, "naming_convention");
    assert_eq!(combined.signals.len(), 2);
    assert_eq!(combined.signals[0].strategy, "naming_convention");
    assert!((share(combined.signals[0].confidence) - 0.9).abs() < 1e-6);
    assert_eq!(combined.signals[1].strategy, "import_graph");
    assert!((share(combined.signals[1].confidence) - 0.7).abs() < 1e-6);
}

#[test]
fn noisy_or_single_observation_passes_through() {
    let combined = combine_noisy_or(vec![seen(CERTAIN / 10 * 7, "import_graph")]);
    assert!((share(combined.confidence) - 0.7).abs() < 1e-6);
    assert_eq!(combined.strategy, "import_graph");
    assert_eq!(combined.signals.len(), 1);
    assert_eq!(combined.signals[0].strategy, "import_graph");
}

#[test]
fn combining_keeps_the_best_of_each_strategy() {
    let combined = combine_noisy_or(vec![
        seen(CERTAIN / 10 * 3, "directory_proximity"),
        seen(CERTAIN / 10 * 5, "coverage_history"),
        seen(CERTAIN / 10 * 2, "coverage_history"),
    ]);
    assert_eq!(combined.strategy, "coverage_history");
    assert_eq!(combined.signals.len(), 2);
    assert_eq!(combined.signals[0].confidence, CERTAIN / 10 * 5);
    assert!(combined.confidence >= CERTAIN / 10 * 5);
    assert!(combined.confidence <= CERTAIN);
    assert_eq!(combined.confidence, CERTAIN / 100 * 72);
}

struct StubHistoryProvider {
    coverage: HashMap<String, Vec<String>>,
    failure: HashMap<String, Vec<String>>,
}

fn candidates(map: &HashMap<String, Vec<String>>, source: &str) -> Option<Vec<HistoryCandidate>> {
    map.get(source).map(|tests| {
        tests.iter().map(|t| HistoryCandidate { test_file: t.clone() }).collect()
    })
}

impl StubHistoryProvider {
    fn new() -> Self {
        Self { coverage: HashMap::new(), failure: HashMap::new() }
    }

    fn with_coverage(mut self, src: &str, tests: &[&str]) -> Self {
        self.coverage.insert(src.to_string(), names(tests));
        self
    }

    fn with_failure(mut self, src: &str, tests: &[&str]) -> Self {
        self.failure.insert(src.to_string(), names(tests));
        self
    }
}

impl HistorySignalProvider for StubHistoryProvider {
    fn coverage_history_candidates(&self, source_file: &str) -> Option<Vec<HistoryCandidate>> {
        candidates(&self.coverage, source_file)
    }

    fn failure_history_candidates(&self, source_file: &str) -> Option<Vec<HistoryCandidate>> {
        candidates(&self.failure, source_file)
    }
}

#[test]
fn no_history_provider_is_degraded_mode() {
    let provider = NoHistoryProvider;
    assert!(provider.coverage_history_candidates("any/file.ts").is_none());
    assert!(provider.failure_history_candidates("any/file.ts").is_none());
}

#[test]
fn coverage_history_signal_surfaces_e2e_specs_that_lack_static_links() {
    let tree = project(&[
        ("server/api/v1/coverage-summary.get.ts", "export default {}"),
        ("e2e/projects.spec.ts", "// e2e test, no imports of route"),
    ]);
    let provider = StubHistoryProvider::new()
        .with_coverage("server/api/v1/coverage-summary.get.ts", &["e2e/projects.spec.ts"]);

    let run = find_affected_tests_with_history(
        &tree,
        &names(&["server/api/v1/coverage-summary.get.ts"]),
        &provider,
        false,
    );

    assert_eq!(run.affected.len(), 1);
    assert_eq!(run.affected[0].test_file, "e2e/projects.spec.ts");
    assert_eq!(run.affected[0].strategy, "coverage_history");
    assert_eq!(run.affected[0].confidence, COVERAGE_HISTORY_CONFIDENCE);
    assert!(run.signals.attempted.contains(&"coverage_history".to_string()));
    assert!(!run.signals.unavailable.contains(&"coverage_history".to_string()));
}

#[test]
fn missing_history_provider_marks_signals_unavailable() {
    let tree = project(&[("server/api/v1/coverage-summary.get.ts", "export default {}")]);
    let run = find_affected_tests_with_history(
        &tree,
        &names(&["server/api/v1/coverage-summary.get.ts"]),
        &NoHistoryProvider,
        false,
    );
    assert!(run.signals.unavailable.contains(&"coverage_history".to_string()));
    assert!(run.signals.unavailable.contains(&"failure_history".to_string()));
    assert!(!run.signals.attempted.contains(&"coverage_history".to_string()));
}

#[test]
fn coverage_history_and_naming_convention_combine_via_noisy_or() {
    let tree = project(&[("src/auth.ts", ""), ("src/auth.test.ts", "")]);
    let provider =
        StubHistoryProvider::new().with_coverage("src/auth.ts", &["src/auth.test.ts"]);
    let run =
        find_affected_tests_with_history(&tree, &names(&["src/auth.ts"]), &provider, false);

    assert_eq!(run.affected.len(), 1);
    let test = &run.affected[0];
    assert_eq!(test.test_file, "src/auth.test.ts");
    assert!((share(test.confidence) - 0.95).abs() < 1e-6, "got {}", test.confidence);
    assert_eq!(test.strategy, "naming_convention");
    let strategies: Vec<&str> = test.signals.iter().map(|s| s.strategy.as_str()).collect();
    assert!(strategies.contains(&"naming_convention"));
    assert!(strategies.contains(&"coverage_history"));
}

#[test]
fn failure_history_counts_and_an_empty_answer_is_an_answer() {
    let tree = project(&[("src/a.ts", "")]);
    let provider = StubHistoryProvider::new()
        .with_coverage("src/a.ts", &[])
        .with_failure("src/a.ts", &["e2e/x.spec.ts"]);
    let run = find_affected_tests_with_history(&tree, &names(&["src/a.ts"]), &provider, true);
    assert_eq!(run.affected.len(), 1);
    assert_eq!(share(run.affected[0].confidence), 0.4);
    assert_eq!(
        run.signals.attempted,
        names(&[
            "naming_convention",
            "directory_proximity",
            "import_graph",
            "coverage_history",
            "failure_history"
        ])
    );
    assert!(run.signals.unavailable.is_empty());
}

#[test]
fn graph_strategy_finds_test_via_import() {
    let tree = project(&[
        ("src/util.ts", "export const x = 1;"),
        ("tests/util.test.ts", "import { x } from '../src/util';\ntest('x', () => {});"),
    ]);
    let heuristic = find_affected_tests(&tree, &names(&["src/util.ts"]));
    assert_eq!(heuristic.len(), 0);

    let with_graph = find_affected_tests_with_graph(&tree, &names(&["src/util.ts"]));
    assert_eq!(with_graph.len(), 1);
    assert!(with_graph[0].test_file.ends_with("util.test.ts"));
    assert_eq!(with_graph[0].strategy, "import_graph");
    assert!((share(with_graph[0].confidence) - 0.7).abs() < 1e-6);
}

#[test]
fn graph_strategy_unions_with_heuristic_via_noisy_or() {
    let tree = project(&[
        ("src/util.ts", "export const x = 1;"),
        ("src/util.test.ts", "import { x } from './util';\ntest('x', () => {});"),
    ]);
    let results = find_affected_tests_with_graph(&tree, &names(&["src/util.ts"]));
    assert_eq!(results.len(), 1);
    assert!(share(results[0].confidence) > 0.95, "got {}", results[0].confidence);
    assert_eq!(results[0].strategy, "naming_convention");
}

#[test]
fn the_cache_changes_nothing_but_the_work() {
    let tree = project(&[
        ("src/util.ts", "export const x = 1;"),
        ("tests/util.test.ts", "import { x } from '../src/util';"),
    ]);
    let first = find_affected_tests_with_graph_cached(&tree, &names(&["src/util.ts"]), &vec![]);
    let build = first.build.unwrap();
    assert_eq!(build.re_extracted, 2);
    let second =
        find_affected_tests_with_graph_cached(&tree, &names(&["src/util.ts"]), &build.writes);
    assert_eq!(second.build.unwrap().re_extracted, 0);
    assert_eq!(first.affected.len(), 1);
    assert_eq!(second.affected.len(), 1);
    assert_eq!(first.affected[0].test_file, second.affected[0].test_file);
    let none = find_affected_tests_with_graph_cached(&tree, &names(&["tests/util.test.ts"]), &vec![]);
    assert!(none.build.is_none());
    assert!(none.affected.is_empty());
}

#[test]
fn rust_files_test_themselves() {
    let tree = project(&[("src/lib.rs", "fn f() {}\n#[cfg(test)]\nmod tests {}\n")]);
    let results = find_affected_tests_with_graph(&tree, &names(&["src/lib.rs"]));
    assert_eq!(results.len(), 1);
    assert_eq!(results[0].test_file, "src/lib.rs");
    assert_eq!(results[0].strategy, "rust_inline_tests");
    assert!(find_affected_tests(&tree, &names(&["src/lib.rs"])).is_empty());
}

#[test]
fn the_command_runs_the_affected_tests() {
    let tree = project(&[
        ("pnpm-lock.yaml", ""),
        ("vitest.config.ts", ""),
        ("src/a.ts", ""),
        ("src/a.test.ts", ""),
    ]);
    let c = compute_with_argv(&tree, &names(&["src/a.ts"]), false, &None);
    assert_eq!(c.argv, Some(names(&["pnpm", "vitest", "src/a.test.ts"])));
    assert_eq!(c.result.run_command.as_deref(), Some("pnpm vitest src/a.test.ts"));
    assert_eq!(c.result.framework.as_deref(), Some("vitest"));
    assert_eq!(
        c.result.signals.unavailable,
        names(&["import_graph", "coverage_history", "failure_history"])
    );
    assert_eq!(print_cmd_outcome(&c.result), (0, "pnpm vitest src/a.test.ts".to_string()));

    let r = compute(&tree, &names(&["other.ts"]), true, &None);
    assert!(r.affected.is_empty());
    assert_eq!(r.run_command, None);
    assert_eq!(r.framework.as_deref(), Some("vitest (vitest.config.ts)"));
    let (code, text) = print_cmd_outcome(&r);
    assert_eq!(code, 1);
    assert!(text.contains("coverage_history, failure_history"));

    let cached = compute_with_argv(&tree, &names(&["src/a.ts"]), true, &Some(vec![]));
    assert!(cached.build.is_some());
    assert_eq!(
        cached.result.signals.attempted,
        names(&["naming_convention", "directory_proximity", "import_graph"])
    );
}

#[test]
fn no_framework_means_no_command() {
    let (argv, name) = build_run_argv("npx", &vec![], &vec![seen(1, "s")]);
    assert_eq!(argv, None);
    assert_eq!(name, None);
    let (argv, name) = build_run_argv("npx", &vec![Framework::Go], &vec![seen(1, "s")]);
    assert_eq!(argv, Some(names(&["go", "test", "x.test.ts"])));
    assert_eq!(name.as_deref(), Some("go"));
}

const NONEXISTENT_SOURCE: &str = "this/path/does/not/exist/anywhere.rs";

fn refusal(request: TestRequest) -> String {
    match request {
        TestRequest::Refused(reason) => reason,
        _ => panic!("expected a refusal"),
    }
}

/// The exit code and the explanation of a run of the tests that are affected by a file that does
/// not exist.
fn run_nothing(on_empty: OnEmpty) -> (i32, String) {
    let files = names(&[NONEXISTENT_SOURCE]);
    assert!(matches!(test_request(true, &files, &vec![]), TestRequest::Affected));
    let c = compute_with_argv(&project(&[]), &files, true, &None);
    assert!(c.argv.is_none());
    empty_outcome(&c.result.signals.unavailable, on_empty)
}

#[test]
fn affected_without_files_exits_with_clear_error() {
    let reason = refusal(test_request(true, &vec![], &vec![]));
    assert!(reason.contains("--files"), "got: {}", reason);
}

#[test]
fn affected_empty_auto_exits_nonzero_in_degraded_mode() {
    let (code, text) = run_nothing(OnEmpty::Auto);
    assert_ne!(code, 0);
    assert!(text.contains("signals were unavailable"), "got: {}", text);
}

#[test]
fn affected_empty_skip_exits_zero_even_when_degraded() {
    assert_eq!(run_nothing(OnEmpty::Skip).0, 0);
}

#[test]
fn affected_empty_fail_exits_nonzero() {
    assert_ne!(run_nothing(OnEmpty::Fail).0, 0);
    assert_ne!(empty_outcome(&vec![], OnEmpty::Fail).0, 0);
    assert_eq!(empty_outcome(&vec![], OnEmpty::Auto).0, 0);
}

#[test]
fn no_command_and_no_affected_exits_with_usage_hint() {
    let reason = refusal(test_request(false, &vec![], &vec![]));
    assert!(
        reason.to_lowercase().contains("required")
            || reason.contains("No command provided")
            || reason.contains("--affected")
    );
    assert!(matches!(test_request(false, &vec![], &names(&["npm", "test"])), TestRequest::Command));
}

#[test]
fn test_files_stay_test_files_in_any_directory_and_case() {
    for path in ["auth.test.ts", "test_auth.py", "tests/it.rs", "a/tests/b/it.rs", "auth_test.go"] {
        assert!(is_test_file(path), "{path}");
        assert!(is_test_file(&format!("pkg/{path}")), "{path}");
        assert!(is_test_file(&format!("Some/Where/{path}")), "{path}");
        assert!(is_test_file(&path.to_ascii_uppercase()), "{path}");
    }
    for path in ["auth.ts", "src/tests.rs", "latest_auth.py"] {
        assert!(!is_test_file(path), "{path}");
        assert!(!is_test_file(&path.to_ascii_uppercase()), "{path}");
    }
}

#[test]
fn a_change_selects_named_near_inline_and_importing_tests() {
    let tree = project(&[
        ("src/util.ts", "export const x = 1;"),
        ("src/util.test.ts", ""),
        ("src/__tests__/near.test.ts", ""),
        ("src/b.ts", "import './util';"),
        ("src/c.ts", "import './b';"),
        ("src/d.ts", "import './c';"),
        ("e2e/two.test.ts", "import '../src/b';"),
        ("e2e/three.test.ts", "import '../src/c';"),
        ("e2e/four.test.ts", "import '../src/d';"),
        ("e2e/none.test.ts", ""),
        ("lib/inline.rs", "#[cfg(test)]\nmod tests {}\n"),
        ("lib/plain.rs", "fn f() {}\n"),
    ]);
    let changed = names(&["src/util.ts", "lib/inline.rs", "lib/plain.rs", "e2e/none.test.ts"]);
    let sorted = |list: &Vec<AffectedTest>| {
        let mut files: Vec<String> = list.iter().map(|t| t.test_file.clone()).collect();
        files.sort();
        files
    };
    let expected = names(&[
        "e2e/three.test.ts",
        "e2e/two.test.ts",
        "lib/inline.rs",
        "src/__tests__/near.test.ts",
        "src/util.test.ts",
    ]);
    let plain = find_affected_tests_with_graph(&tree, &changed);
    assert_eq!(sorted(&plain), expected);
    let first = find_affected_tests_with_graph_cached(&tree, &changed, &vec![]);
    let writes = first.build.unwrap().writes;
    let second = find_affected_tests_with_graph_cached(&tree, &changed, &writes);
    for list in [&first.affected, &second.affected] {
        assert_eq!(sorted(list), expected);
        for t in list.iter() {
            let same = plain.iter().find(|p| p.test_file == t.test_file).unwrap();
            assert_eq!(t.confidence, same.confidence);
            assert_eq!(t.strategy, same.strategy);
            assert_eq!(t.source_file, same.source_file);
            assert_eq!(t.signals.len(), same.signals.len());
        }
    }
}

fn around(files: &[(&str, &str)], outside: &[(&str, &str, bool)]) -> ProjectTree {
    let inside = project(files);
    let mut entries = Vec::new();
    for e in inside.entries() {
        entries.push(TreeEntry {
            path: e.path.clone(),
            is_dir: e.is_dir,
            contents: e.contents.clone(),
            mtime: e.mtime,
        });
    }
    let outside = outside
        .iter()
        .map(|(path, text, is_dir)| TreeEntry {
            path: path.to_string(),
            is_dir: *is_dir,
            contents: if *is_dir { None } else { Some(text.to_string()) },
            mtime: 1,
        })
        .collect();
    ProjectTree::new("/work/project", entries, outside)
}

fn files_of(list: &[AffectedTest]) -> Vec<String> {
    let mut files: Vec<String> = list.iter().map(|t| t.test_file.clone()).collect();
    files.sort();
    files
}

#[test]
fn changed_files_may_be_given_from_the_root_of_the_file_system() {
    let tree = project(&[
        ("src/auth.ts", ""),
        ("src/auth.test.ts", ""),
        ("src/tests/login.test.ts", ""),
        ("e2e/all.test.ts", "import '../src/auth';"),
        ("lib/own.rs", "#[cfg(test)]\nmod tests {}\n"),
    ]);
    let changed = names(&["/work/project/src/auth.ts", "/work/project/lib/own.rs"]);
    let found = find_affected_tests(&tree, &changed);
    assert_eq!(files_of(&found), names(&["src/auth.test.ts", "src/tests/login.test.ts"]));
    assert!(found.iter().all(|t| t.source_file == "/work/project/src/auth.ts"));
    // The graph knows the files of the project by their relative paths.
    let found = find_affected_tests_with_graph(&tree, &changed);
    assert_eq!(
        files_of(&found),
        names(&["/work/project/lib/own.rs", "src/auth.test.ts", "src/tests/login.test.ts"])
    );
    assert!(find_affected_tests(&tree, &names(&["/work/other/src/auth.ts"])).is_empty());
    assert!(find_affected_tests(&tree, &names(&["/work/project"])).is_empty());
}

#[test]
fn changed_files_may_stand_above_the_project() {
    let tree = around(
        &[("src/x.test.ts", "import '../../shared/a';"), ("src/y.ts", "")],
        &[
            ("/work/shared", "", true),
            ("/work/shared/a.ts", "", false),
            ("/work/shared/a.test.ts", "", false),
            ("/work/shared/tests", "", true),
            ("/work/shared/tests/b.test.ts", "", false),
            ("/work/shared/own.rs", "#[cfg(test)]\nmod tests {}\n", false),
        ],
    );
    let found = find_affected_tests(&tree, &names(&["../shared/a.ts"]));
    assert_eq!(files_of(&found), names(&["../shared/a.test.ts", "../shared/tests/b.test.ts"]));
    let through = find_affected_tests(&tree, &names(&["../project/../shared/a.ts"]));
    assert_eq!(
        files_of(&through),
        names(&["../project/../shared/a.test.ts", "../project/../shared/tests/b.test.ts"])
    );
    let inline = find_affected_tests_with_graph(&tree, &names(&["../shared/own.rs"]));
    assert!(files_of(&inline).contains(&"../shared/own.rs".to_string()));
    let absolute = find_affected_tests_with_graph(&tree, &names(&["/work/shared/a.ts"]));
    assert_eq!(files_of(&absolute), names(&["src/x.test.ts"]));
    assert_eq!(absolute[0].strategy, "import_graph");
}

#[test]
fn tests_are_spelled_like_the_changed_file() {
    let tree = project(&[
        ("src/sub/auth.ts", ""),
        ("src/sub/auth.test.ts", ""),
        ("src/sub/test/near.test.ts", ""),
    ]);
    let spelled = |source: &str| files_of(&find_affected_tests(&tree, &names(&[source])));
    assert_eq!(
        spelled("src//sub/auth.ts"),
        names(&["src//sub/auth.test.ts", "src//sub/test/near.test.ts"])
    );
    assert_eq!(
        spelled("./src/./sub/.//auth.ts"),
        names(&["src/./sub/auth.test.ts", "src/./sub/test/near.test.ts"])
    );
    assert_eq!(
        spelled("/work//project/./src//sub/auth.ts"),
        names(&["src//sub/auth.test.ts", "src//sub/test/near.test.ts"])
    );
    assert_eq!(
        spelled("src/sub/auth.ts/"),
        names(&["src/sub/auth.test.ts", "src/sub/test/near.test.ts"])
    );
}

#[test]
fn the_graph_adds_to_the_heuristics() {
    let tree = project(&[
        ("src/util.ts", ""),
        ("src/util.test.ts", ""),
        ("src/test/near.test.ts", ""),
        ("e2e/far.test.ts", "import '../src/util';"),
        ("lib/inline.rs", "#[cfg(test)]\nmod tests {}\n"),
    ]);
    let changed = names(&["src/util.ts", "lib/inline.rs"]);
    let mut expected = files_of(&find_affected_tests(&tree, &changed));
    assert_eq!(expected, names(&["src/test/near.test.ts", "src/util.test.ts"]));
    expected.push("lib/inline.rs".to_string());
    expected.push("e2e/far.test.ts".to_string());
    expected.sort();
    assert_eq!(files_of(&find_affected_tests_with_graph(&tree, &changed)), expected);
}
