//! Configuration, frameworks, discovery and what is shown of them.
use gaffer::config::{
    default_report_patterns, global_config_dir, global_config_path, list, local_config_places,
    mask_token, render_config, render_global_config, resolve_field_5, source_label, Config,
    ConfigInputs, ConfigLine, ConfigSource, FileConfig, Probe,
};
use gaffer::discovery::{
    extract_dir_overrides, is_context_excluded, is_fixture_path, is_glob, select_context_files,
    select_reports, split_reports, WalkItem,
};
use gaffer::display::{
    comparison_stats, coverage_band, flip_percent, label_band, plural, shows_duration, shows_rate,
    status_mark, trend_arrow, truncate_ellipsis, Band,
};
use gaffer::cluster::Share;
use gaffer::doctor::{
    check_database, check_frameworks, check_global_config, check_local_config, check_orphan,
    check_reports, check_token, check_token_source, DatabaseState, Level,
};
use gaffer::framework::{check_reporter, detect_frameworks, Framework, PatchResult, PytestConfig};
use gaffer::git::{detect_branch, detect_ci_provider, detect_commit, CiVariables};
use gaffer::run::{ComparisonResult, Fraction};
use gaffer::tree::{ProjectTree, TreeEntry};

fn some(s: &str) -> Option<String> {
    Some(s.to_string())
}

// ----- configuration ---------------------------------------------------------------------------

#[test]
fn global_config_dir_uses_xdg_when_set() {
    assert_eq!(global_config_dir(&some("/tmp/xdg"), &some("/home/u")), some("/tmp/xdg/gaffer"));
    assert_eq!(
        global_config_path(&some("/tmp/xdg"), &None),
        some("/tmp/xdg/gaffer/config.toml")
    );
}

#[test]
fn global_config_dir_ignores_empty_xdg() {
    let result = global_config_dir(&some(""), &some("/home/u"));
    assert!(result.is_none() || result.clone().unwrap().contains(".config/gaffer"));
    assert_eq!(result, some("/home/u/.config/gaffer"));
    assert_eq!(global_config_dir(&None, &None), None);
}

/// A configuration file's contents.
fn file_config(token: Option<&str>, patterns: Option<&[&str]>) -> FileConfig {
    FileConfig {
        token: token.map(|t| t.to_string()),
        api_url: None,
        report_patterns: patterns.map(|p| p.iter().map(|s| s.to_string()).collect()),
    }
}

/// What is found at the places where a local configuration may stand.
fn probes(start: &str, files: Vec<(&str, FileConfig)>) -> Vec<Probe> {
    let mut files: Vec<(&str, Option<FileConfig>)> =
        files.into_iter().map(|(p, c)| (p, Some(c))).collect();
    local_config_places(start)
        .into_iter()
        .map(|(dir, path)| {
            let at = files.iter().position(|f| f.0 == path);
            let config = at.and_then(|n| files[n].1.take());
            Probe { dir, path, found: config.is_some(), config }
        })
        .collect()
}

fn inputs(start: &str, files: Vec<(&str, FileConfig)>) -> ConfigInputs {
    ConfigInputs {
        cli_token: None,
        cli_api_url: None,
        cli_reports: vec![],
        env_token: None,
        env_api_url: None,
        start_dir: start.to_string(),
        explicit_path: None,
        explicit: None,
        probes: probes(start, files),
        global: None,
        global_path: None,
    }
}

#[test]
fn find_local_config_finds_gaffer_dir_config() {
    let c = Config::resolve(&inputs(
        "/tmp/p",
        vec![("/tmp/p/.gaffer/config.toml", file_config(Some("test_token"), None))],
    ));
    assert_eq!(c.token.as_deref(), Some("test_token"));
    assert_eq!(c.project_root, "/tmp/p");
    assert!(c.sources.checked_paths.iter().any(|p| p.1));
}

#[test]
fn find_local_config_finds_gaffer_toml() {
    let c = Config::resolve(&inputs(
        "/tmp/p",
        vec![("/tmp/p/gaffer.toml", file_config(Some("flat_token"), None))],
    ));
    assert_eq!(c.token.as_deref(), Some("flat_token"));
}

#[test]
fn find_local_config_walks_up() {
    let c = Config::resolve(&inputs(
        "/tmp/p/subdir",
        vec![("/tmp/p/.gaffer/config.toml", file_config(Some("parent_token"), None))],
    ));
    assert_eq!(c.token.as_deref(), Some("parent_token"));
    assert_eq!(c.project_root, "/tmp/p");
}

#[test]
fn find_local_config_returns_none_when_nothing_found() {
    let c = Config::resolve(&inputs("/tmp/p", vec![]));
    assert!(c.sources.local_config_path.is_none());
    assert!(!c.sources.checked_paths.is_empty());
    assert!(c.sources.checked_paths.iter().all(|p| !p.1));
}

#[test]
fn find_local_config_prefers_gaffer_dir_over_flat_file() {
    let c = Config::resolve(&inputs(
        "/tmp/p",
        vec![
            ("/tmp/p/.gaffer/config.toml", file_config(Some("dir_token"), None)),
            ("/tmp/p/gaffer.toml", file_config(Some("flat_token"), None)),
        ],
    ));
    assert_eq!(c.token.as_deref(), Some("dir_token"));
}

#[test]
fn resolve_cli_flag_wins_over_all() {
    let mut i = inputs(
        "/tmp/p",
        vec![("/tmp/p/.gaffer/config.toml", file_config(Some("local_token"), None))],
    );
    i.cli_token = some("cli_token");
    i.env_token = some("env_token");
    let c = Config::resolve(&i);
    assert_eq!(c.token.as_deref(), Some("cli_token"));
    assert_eq!(c.sources.token, ConfigSource::CliFlag);
}

#[test]
fn resolve_local_config_provides_patterns_global_provides_token() {
    let mut i = inputs(
        "/tmp/p",
        vec![("/tmp/p/.gaffer/config.toml", file_config(None, Some(&["custom/**/*.xml"])))],
    );
    i.global = Some(file_config(Some("global_token"), None));
    i.global_path = some("/g/gaffer/config.toml");
    let c = Config::resolve(&i);
    assert_eq!(c.token.as_deref(), Some("global_token"));
    assert_eq!(c.sources.token, ConfigSource::GlobalConfig);
    assert_eq!(c.report_patterns, vec!["custom/**/*.xml"]);
    assert_eq!(c.sources.report_patterns, ConfigSource::LocalConfig);
}

#[test]
fn resolve_local_token_wins_over_global() {
    let mut i = inputs(
        "/tmp/p",
        vec![("/tmp/p/.gaffer/config.toml", file_config(Some("local_token"), None))],
    );
    i.global = Some(file_config(Some("global_token"), None));
    let c = Config::resolve(&i);
    assert_eq!(c.token.as_deref(), Some("local_token"));
    assert_eq!(c.sources.token, ConfigSource::LocalConfig);
}

#[test]
fn resolve_defaults_when_no_config() {
    let c = Config::resolve(&inputs("/tmp/p", vec![]));
    assert!(c.token.is_none());
    assert_eq!(c.sources.token, ConfigSource::Default);
    assert_eq!(c.report_patterns.len(), default_report_patterns().len());
    assert_eq!(c.sources.report_patterns, ConfigSource::Default);
}

#[test]
fn resolve_project_root_from_local_config() {
    let c = Config::resolve(&inputs(
        "/tmp/p/deep/nested",
        vec![("/tmp/p/.gaffer/config.toml", file_config(None, None))],
    ));
    assert_eq!(c.project_root, "/tmp/p");
}

#[test]
fn resolve_project_root_is_cwd_when_no_local() {
    let c = Config::resolve(&inputs("/tmp/p", vec![]));
    assert_eq!(c.project_root, "/tmp/p");
}

#[test]
fn fields_come_from_the_first_source_that_has_them() {
    let (v, s) = resolve_field_5(&None, &some("e"), &some("x"), &some("l"), &some("g"));
    assert_eq!((v.as_deref(), s), (Some("e"), ConfigSource::EnvVar));
    let (v, s) = resolve_field_5(&None, &None, &some("x"), &some("l"), &some("g"));
    assert_eq!((v.as_deref(), s), (Some("x"), ConfigSource::ExplicitConfig));
    let (v, s) = resolve_field_5(&None, &None, &None, &None, &None);
    assert_eq!((v, s), (None, ConfigSource::Default));
}

#[test]
fn exchanged_tokens_are_recorded() {
    let mut c = Config::resolve(&inputs("/tmp/p", vec![]));
    c.take_exchanged("gfr_new");
    assert_eq!(c.token.as_deref(), Some("gfr_new"));
    assert_eq!(c.sources.token, ConfigSource::Oidc);
}

#[test]
fn global_patterns_are_ignored() {
    let mut i = inputs("/tmp/p", vec![]);
    i.global = Some(file_config(None, Some(&["global/**"])));
    let c = Config::resolve(&i);
    assert_eq!(c.report_patterns, default_report_patterns());
}

#[test]
fn places_lead_up_to_the_root() {
    let places: Vec<String> = local_config_places("/a/b").into_iter().map(|p| p.1).collect();
    assert_eq!(
        places,
        vec![
            "/a/b/.gaffer/config.toml",
            "/a/b/gaffer.toml",
            "/a/.gaffer/config.toml",
            "/a/gaffer.toml",
            "/.gaffer/config.toml",
            "/gaffer.toml",
        ]
    );
}

#[test]
fn write_global_config_creates_dir_and_file() {
    let content = render_global_config(&some("test_token"), &some("https://test.gaffer.sh"));
    assert!(content.contains("token = \"test_token\""));
    assert!(content.contains("api_url = \"https://test.gaffer.sh\""));
    assert!(!content.contains("[test]"));
    assert!(!content.contains("report_patterns"));
}

#[test]
fn write_global_config_overwrites_existing() {
    let content = render_global_config(&some("new_token"), &None);
    assert!(content.contains("new_token"));
    assert!(!content.contains("old_token"));
}

#[test]
fn write_config_creates_gaffer_dir_and_file() {
    let content =
        render_config(&some("tok"), &some("https://api"), &vec!["**/*.xml".to_string()]);
    assert!(content.contains("token = \"tok\""));
    assert!(content.contains("api_url = \"https://api\""));
    assert!(content.contains("[test]"));
    assert!(content.contains("**/*.xml"));
}

#[test]
fn written_values_are_escaped() {
    let content = render_global_config(&some("a\"b"), &None);
    assert!(content.contains("token = \"a\\\"b\""));
}

#[test]
fn mask_token_shows_prefix_and_suffix() {
    assert_eq!(mask_token("gfr_abcdef123456"), "gfr_***3456");
}

#[test]
fn mask_token_short_token() {
    assert_eq!(mask_token("abc"), "****");
    assert_eq!(mask_token("abcdefg"), "****");
    assert_eq!(mask_token("abcdefghijk"), "****");
}

#[test]
fn listings_mask_the_token() {
    let mut i = inputs("/tmp/p", vec![]);
    i.cli_token = some("gfr_abcdef123456");
    let lines = list(&Config::resolve(&i), &some("/g/config.toml"));
    let mut seen = false;
    for line in &lines {
        if let ConfigLine::Field(_, value) = line {
            assert!(!value.contains("abcdef"));
            seen = seen || value.contains("gfr_***3456");
        }
    }
    assert!(seen);
    assert!(lines.iter().any(|l| matches!(l, ConfigLine::Missing(p) if p.contains("/tmp/p"))));
    assert_eq!(source_label(&ConfigSource::CliFlag), "from --flag");
}

// ----- frameworks ------------------------------------------------------------------------------

fn project(files: &[(&str, &str)]) -> ProjectTree {
    let entries = files
        .iter()
        .map(|(path, text)| TreeEntry {
            path: path.to_string(),
            is_dir: false,
            contents: Some(text.to_string()),
            mtime: 1,
        })
        .collect();
    ProjectTree::new("/work/project", entries, vec![])
}

#[test]
fn detect_vitest() {
    let fws = detect_frameworks(&project(&[("vitest.config.ts", "export default {}")]));
    assert_eq!(fws.len(), 1);
    assert!(matches!(fws[0], Framework::Vitest(_)));
}

#[test]
fn detect_playwright() {
    let fws = detect_frameworks(&project(&[("playwright.config.ts", "export default {}")]));
    assert_eq!(fws.len(), 1);
    assert!(matches!(fws[0], Framework::Playwright(_)));
}

#[test]
fn detect_pytest_pyproject() {
    let tree = project(&[("pyproject.toml", "[tool.pytest.ini_options]\naddopts = \"-v\"")]);
    let fws = detect_frameworks(&tree);
    assert_eq!(fws.len(), 1);
    assert!(matches!(fws[0], Framework::Pytest(PytestConfig::PyprojectToml(_))));
}

#[test]
fn detect_go() {
    let fws = detect_frameworks(&project(&[("go.mod", "module example.com/foo")]));
    assert_eq!(fws.len(), 1);
    assert!(matches!(fws[0], Framework::Go));
}

#[test]
fn detect_none() {
    assert!(detect_frameworks(&project(&[])).is_empty());
}

#[test]
fn detects_vitest_and_playwright() {
    let fws =
        detect_frameworks(&project(&[("vitest.config.ts", ""), ("playwright.config.ts", "")]));
    assert_eq!(fws.len(), 2);
    assert!(matches!(fws[0], Framework::Vitest(_)));
    assert!(matches!(fws[1], Framework::Playwright(_)));
}

#[test]
fn detects_vitest_and_jest_separately() {
    let fws = detect_frameworks(&project(&[("vitest.config.ts", ""), ("jest.config.js", "")]));
    assert_eq!(fws.len(), 2);
    assert!(matches!(fws[0], Framework::Vitest(_)));
    assert!(matches!(fws[1], Framework::Jest(_)));
}

fn vitest(text: &str) -> PatchResult {
    check_reporter(&Framework::Vitest("vitest.config.ts".to_string()), &some(text))
}

fn playwright(text: &str) -> PatchResult {
    check_reporter(&Framework::Playwright("playwright.config.ts".to_string()), &some(text))
}

fn instructions(result: PatchResult) -> String {
    match result {
        PatchResult::Instructions(msg) => msg,
        PatchResult::AlreadyConfigured { .. } => panic!("Expected Instructions"),
    }
}

fn format_of(result: PatchResult) -> &'static str {
    match result {
        PatchResult::AlreadyConfigured { format, .. } => format,
        PatchResult::Instructions(_) => panic!("Expected AlreadyConfigured"),
    }
}

#[test]
fn vitest_returns_instructions() {
    let msg = instructions(vitest(
        "import { defineConfig } from 'vitest/config'\n\nexport default defineConfig({\n  test: {\n    globals: true,\n  },\n})\n",
    ));
    assert!(msg.contains("vitest-results.json"));
    assert!(msg.contains("'json'"));
}

#[test]
fn vitest_already_configured_junit() {
    let result = vitest("export default defineConfig({\n  reporters: ['default', 'junit'],\n})\n");
    assert!(matches!(result, PatchResult::AlreadyConfigured { .. }));
}

#[test]
fn vitest_already_configured_json() {
    let result = vitest(
        "export default defineConfig({\n  reporters: ['default', 'json'],\n  outputFile: {\n    json: '.gaffer/reports/vitest-results.json',\n  },\n})\n",
    );
    assert_eq!(format_of(result), "JSON");
}

#[test]
fn playwright_returns_instructions() {
    let msg = instructions(playwright(
        "import { defineConfig } from '@playwright/test'\n\nexport default defineConfig({\n  testDir: './e2e',\n})\n",
    ));
    assert!(msg.contains("playwright-results.json"));
    assert!(msg.contains("'json'"));
}

#[test]
fn playwright_already_configured_json() {
    let result = playwright(
        "import { defineConfig } from '@playwright/test'\n\nexport default defineConfig({\n  reporter: [['html'], ['json', { outputFile: '.gaffer/reports/playwright-results.json' }]],\n})\n",
    );
    assert_eq!(format_of(result), "JSON");
}

fn pytest(text: &str) -> PatchResult {
    let config = PytestConfig::PyprojectToml("pyproject.toml".to_string());
    check_reporter(&Framework::Pytest(config), &some(text))
}

#[test]
fn pytest_returns_instructions() {
    let msg = instructions(pytest("[tool.pytest.ini_options]\naddopts = \"-v\"\n"));
    assert!(msg.contains("--junitxml"));
    assert!(msg.contains("pyproject.toml"));
}

#[test]
fn pytest_already_configured() {
    let result =
        pytest("[tool.pytest.ini_options]\naddopts = \"--junitxml=results.xml\"\n");
    assert!(matches!(result, PatchResult::AlreadyConfigured { .. }));
}

#[test]
fn jest_returns_instructions() {
    let result = check_reporter(
        &Framework::Jest("jest.config.js".to_string()),
        &some("module.exports = {}"),
    );
    assert!(matches!(result, PatchResult::Instructions(_)));
}

#[test]
fn go_returns_instructions() {
    let result = check_reporter(&Framework::Go, &None);
    assert!(matches!(result, PatchResult::Instructions(_)));
}

#[test]
fn vitest_ctrf_already_configured() {
    let result = vitest(
        "import { defineConfig } from 'vitest/config'\n\nexport default defineConfig({\n  reporters: ['default', 'vitest-ctrf-json-reporter'],\n})\n",
    );
    assert_eq!(format_of(result), "CTRF");
}

#[test]
fn playwright_ctrf_already_configured() {
    let result = playwright(
        "import { defineConfig } from '@playwright/test'\n\nexport default defineConfig({\n  reporter: [['html'], ['playwright-ctrf-json-reporter']],\n})\n",
    );
    assert_eq!(format_of(result), "CTRF");
}

// ----- discovery -------------------------------------------------------------------------------

fn item(path: &str, mtime: i64) -> WalkItem {
    WalkItem { path: path.to_string(), relative: some(path), is_file: true, mtime: Some(mtime) }
}

#[test]
fn reports_are_fresh_files_that_are_no_fixtures() {
    let mut dir = item("reports", 9);
    dir.is_file = false;
    let mut unknown = item("unknown.xml", 9);
    unknown.mtime = None;
    let items = vec![
        item("b.xml", 5),
        dir,
        item("old.xml", 4),
        item("fixtures/x.xml", 9),
        unknown,
        item("a.xml", 9),
    ];
    assert_eq!(select_reports(&items, 5), vec!["b.xml", "a.xml"]);
    assert!(is_fixture_path("src/fixtures/x.xml"));
    assert!(!is_fixture_path("src/fixtures.xml"));
}

#[test]
fn context_leaves_out_reports() {
    let items = vec![item("a.txt", 9), item("b.txt", 9), item("c.txt", 1)];
    assert_eq!(select_context_files(&items, &vec!["b.txt".to_string()], 5), vec!["a.txt"]);
    assert!(is_context_excluded("node_modules", 1));
    assert!(!is_context_excluded("node_modules", 0));
    assert!(!is_context_excluded("src", 1));
}

#[test]
fn patterns_name_hidden_directories() {
    assert_eq!(
        extract_dir_overrides("**/.gaffer/reports/*.xml"),
        vec!["**/.gaffer/", "**/.gaffer/reports/"]
    );
    assert!(extract_dir_overrides("**/*.xml").is_empty());
    let given: Vec<String> =
        ["a.xml", "/b.xml", "c/*.xml"].iter().map(|s| s.to_string()).collect();
    let (paths, patterns) = split_reports("/p", &given);
    assert_eq!(paths, vec!["/p/a.xml", "/b.xml"]);
    assert_eq!(patterns, vec!["c/*.xml"]);
    assert!(is_glob("a/*.xml"));
    assert!(!is_glob("a/b.xml"));
}

// ----- git -------------------------------------------------------------------------------------

#[test]
fn branches_and_commits_come_from_the_runner_first() {
    assert_eq!(detect_branch(&some("pr"), &some("main"), &None, &some("x\n")), some("pr"));
    assert_eq!(detect_branch(&some(""), &some("main"), &None, &None), some("main"));
    assert_eq!(detect_branch(&None, &None, &None, &some("feat\n")), some("feat"));
    assert_eq!(detect_commit(&None, &some("abc"), &some("def")), some("abc"));
    assert_eq!(detect_commit(&None, &None, &None), None);
}

#[test]
fn runners_are_recognized() {
    let mut v = CiVariables {
        github_actions: false,
        gitlab_ci: false,
        circleci: false,
        jenkins_url: false,
        buildkite: false,
        travis: false,
    };
    assert_eq!(detect_ci_provider(&v), None);
    v.travis = true;
    assert!(detect_ci_provider(&v).is_some());
    v.github_actions = true;
    assert_eq!(detect_ci_provider(&v), some("github-actions"));
}

// ----- display ---------------------------------------------------------------------------------

#[test]
fn counts_and_trends_read_well() {
    assert_eq!(plural(1, "test"), "1 test");
    assert_eq!(plural(2, "test"), "2 tests");
    assert_ne!(trend_arrow("improving"), trend_arrow("declining"));
    assert_eq!(truncate_ellipsis("short", 10), "short");
    assert_eq!(truncate_ellipsis("abcdefghij", 5).chars().count(), 5);
    assert_eq!(flip_percent(&Share { part: 1, whole: 3 }), 33);
    assert_ne!(status_mark("passed"), status_mark("failed"));
}

#[test]
fn bands_follow_the_share() {
    assert_eq!(coverage_band(90, 100), Band::Good);
    assert_eq!(coverage_band(60, 100), Band::Fair);
    assert_eq!(coverage_band(10, 100), Band::Poor);
    assert_eq!(label_band("excellent"), Band::Good);
    assert_eq!(label_band("critical"), Band::Poor);
}

#[test]
fn comparisons_show_what_changed() {
    let c = ComparisonResult {
        baseline_branch: "main".to_string(),
        baseline_run_id: "r".to_string(),
        new_failures: vec!["a".to_string()],
        fixed: vec![],
        pre_existing_failures: vec!["b".to_string(), "c".to_string()],
        pass_rate_delta: Fraction { num: 0, den: 1 },
        duration_delta: 0,
        total_delta: 0,
    };
    let stats = comparison_stats(&c);
    assert_eq!(stats.len(), 2);
    assert!(stats[0].contains('1'));
    assert!(stats[1].contains('2'));
    assert!(!shows_duration(0));
}

// ----- doctor ----------------------------------------------------------------------------------

#[test]
fn findings_tell_what_is_missing() {
    let c = Config::resolve(&inputs("/tmp/p", vec![]));
    assert_ne!(check_local_config(&c).level, Level::Pass);
    assert_ne!(check_global_config(&c, &some("/g/config.toml")).level, Level::Pass);
    assert_ne!(check_token_source(&c).level, Level::Pass);
    assert_ne!(check_token(&None, &Ok(200)).level, Level::Pass);
    assert_eq!(check_token(&some("t"), &Ok(200)).level, Level::Pass);
    assert_eq!(check_token(&some("t"), &Ok(401)).level, Level::Fail);
    assert_ne!(check_token(&some("t"), &Err("down".to_string())).level, Level::Pass);
    assert_ne!(check_reports(0).level, Level::Pass);
    assert_eq!(check_reports(2).level, Level::Pass);
    assert_ne!(check_frameworks(&vec![]).level, Level::Pass);
    assert_eq!(check_frameworks(&vec![Framework::Go]).level, Level::Pass);
}

#[test]
fn findings_look_into_the_database() {
    let readable = DatabaseState::Readable { size: Some(2048), has_runs: true };
    assert_eq!(check_database("/d", &readable).level, Level::Pass);
    let broken = DatabaseState::CannotOpen("locked".to_string());
    assert_eq!(check_database("/d", &broken).level, Level::Fail);
    assert_ne!(check_database("/d", &DatabaseState::Missing).level, Level::Pass);
    assert!(check_orphan("/d", true, false).is_some());
    assert!(check_orphan("/d", true, true).is_none());
    assert!(check_orphan("/d", false, false).is_none());
}

#[test]
fn pytest_is_looked_for_behind_a_silent_pyproject() {
    let tree = project(&[("pyproject.toml", "[project]\nname = \"x\"\n"), ("pytest.ini", "[pytest]\n")]);
    let fws = detect_frameworks(&tree);
    assert_eq!(fws.len(), 1);
    assert!(matches!(fws[0], Framework::Pytest(PytestConfig::PytestIni(_))));

    let tree = project(&[
        ("pyproject.toml", "[project]\nname = \"x\"\n"),
        ("setup.cfg", "[metadata]\n\n[tool:pytest]\naddopts = -v\n"),
    ]);
    let fws = detect_frameworks(&tree);
    assert_eq!(fws.len(), 1);
    assert!(matches!(fws[0], Framework::Pytest(PytestConfig::SetupCfg(_))));

    let silent = project(&[("pyproject.toml", "[project]\n"), ("setup.cfg", "[metadata]\n")]);
    assert!(detect_frameworks(&silent).is_empty());
}

#[test]
fn rates_are_shown_from_a_twentieth_on() {
    let shown = |num: i128, den: i128| shows_rate(&Fraction { num, den });
    assert!(shown(1, 20));
    assert!(shown(-1, 20));
    assert!(!shown(1, 21));
    assert!(!shown(-1, 21));
    assert!(shown(2, 21));
    assert!(!shown(0, 1));
    assert!(shown(i128::MAX, i128::MAX));
    assert!(shown(i128::MIN, 1));
}

#[test]
fn configurations_are_looked_for_as_the_directory_is_spelled() {
    let dirs = |start: &str| -> Vec<String> {
        local_config_places(start).into_iter().map(|(dir, _)| dir).step_by(2).collect()
    };
    assert_eq!(dirs("/a/b"), vec!["/a/b", "/a", "/"]);
    assert_eq!(dirs("/a//b/./c/"), vec!["/a//b/./c/", "/a//b", "/a", "/"]);
    assert_eq!(dirs("//a"), vec!["//a", "/"]);
    assert_eq!(dirs("./a/b"), vec!["./a/b", "./a", ".", ""]);
    assert_eq!(dirs("a/.."), vec!["a/..", "a", ""]);
    assert_eq!(dirs("."), vec![".", ""]);
    assert_eq!(dirs(""), vec![""]);
    assert_eq!(dirs("/"), vec!["/"]);
    let files: Vec<String> =
        local_config_places("/a//b/").into_iter().map(|(_, file)| file).collect();
    assert_eq!(
        files,
        vec![
            "/a//b/.gaffer/config.toml",
            "/a//b/gaffer.toml",
            "/a/.gaffer/config.toml",
            "/a/gaffer.toml",
            "/.gaffer/config.toml",
            "/gaffer.toml",
        ]
    );
}
