//! The decisions behind the commands.
use vstd::prelude::*;

use crate::affected::{
    any_source, detect_package_manager, find_affected_tests, find_affected_tests_with_answers,
    find_affected_tests_with_graph_cached, heuristic_findings, is_graph_outcome, is_history_run,
    is_top, package_manager, AffectedTestsRun, AffectedTestsSignalCoverage, HistoryAnswer,
};
use crate::auth::{oidc_message, ExchangedToken, OidcError};
use crate::framework::{
    detect_frameworks, framework_label, frameworks_in, Framework, FrameworkView,
};
use crate::git::{first_of_two, nonempty};
use crate::json::{field_at, field_is_there, is_there, json_field};
use crate::observations::{AffectedTest, Finding};
use crate::ranking::reversed;
use crate::run::TestEvent;
use crate::text::{
    concat2, concat3, contains, ends_with, has, has_suffix, has_text, is_listed, is_space, join,
    join_texts, lines, lines_of, listed, opt_text, rows, same, spells, split_ends_in_piece, split_on, trim,
    trim_chars,
};
use crate::tree::ProjectTree;
use crate::upload::{failure, Blame, Failure, UploadError};
use crate::walker::{is_cached_build, CachedBuild, CachedFile};

verus! {

/// How results are printed.
#[derive(Clone, Copy, PartialEq, Eq, Structural, Debug)]
pub enum OutputFormat {
    Human,
    Json,
}

/// Which failures make a run fail.
#[derive(Clone, Copy, PartialEq, Eq, Structural, Debug)]
pub enum FailOn {
    New,
}

/// What to do with the configuration.
#[derive(Clone, Copy, PartialEq, Eq, Structural, Debug)]
pub enum ConfigCommand {
    List,
}

/// What the user asked `gaffer upload` for.
pub struct UploadArgs {
    pub paths: Vec<String>,
    pub token: Option<String>,
    pub api_url: Option<String>,
    pub commit_sha: Option<String>,
    pub branch: Option<String>,
    pub test_framework: Option<String>,
    pub test_suite: Option<String>,
    pub timeout_secs: u64,
    pub max_file_size_mb: u64,
    pub debug: bool,
}

// ---------------------------------------------------------------------------------------------
// Affected tests
// ---------------------------------------------------------------------------------------------
/// Affected tests, and how to run them.
pub struct AffectedTestsResult {
    pub affected: Vec<AffectedTest>,
    pub run_command: Option<String>,
    pub framework: Option<String>,
    pub signals: AffectedTestsSignalCoverage,
}

/// How a framework is started, and its short name.
pub open spec fn runner(f: FrameworkView, package_manager: Seq<char>) -> (
    Seq<Seq<char>>,
    Seq<char>,
) {
    match f {
        FrameworkView::Vitest(_) => (seq![package_manager, "vitest"@], "vitest"@),
        FrameworkView::Playwright(_) => (
            seq![package_manager, "playwright"@, "test"@],
            "playwright"@,
        ),
        FrameworkView::Jest(_) => (seq![package_manager, "jest"@], "jest"@),
        FrameworkView::Pytest(_) => (seq!["pytest"@], "pytest"@),
        FrameworkView::Go => (seq!["go"@, "test"@], "go"@),
        FrameworkView::Rspec => (seq!["rspec"@], "rspec"@),
    }
}

/// The test files of findings.
pub open spec fn test_files(list: Seq<Finding>) -> Seq<Seq<char>> {
    Seq::new(list.len(), |k: int| list[k].test_file)
}

/// The command line that runs the affected tests with the first framework; `None` where there is
/// nothing to run, or nothing to run it with.
pub open spec fn command_line(
    package_manager: Seq<char>,
    frameworks: Seq<FrameworkView>,
    affected: Seq<Finding>,
) -> Option<Seq<Seq<char>>> {
    if affected.len() == 0 || frameworks.len() == 0 {
        None
    } else {
        Some(runner(frameworks[0], package_manager).0 + test_files(affected))
    }
}

/// The framework that is reported: by its short name where there is a command line, else as it is
/// shown.
pub open spec fn framework_name(
    package_manager: Seq<char>,
    frameworks: Seq<FrameworkView>,
    affected: Seq<Finding>,
) -> Option<Seq<char>> {
    if frameworks.len() == 0 {
        None
    } else if affected.len() == 0 {
        Some(framework_label(frameworks[0]))
    } else {
        Some(runner(frameworks[0], package_manager).1)
    }
}

/// What an optional list of texts holds.
pub open spec fn opt_texts(o: Option<Vec<String>>) -> Option<Seq<Seq<char>>> {
    match o {
        Some(v) => Some(v.deep_view()),
        None => None,
    }
}

fn start_of(f: &Framework, package_manager: &str) -> (r: (Vec<String>, &'static str))
    ensures
        (r.0.deep_view(), r.1@) == runner(f.deep_view(), package_manager@),
{
    let mut argv: Vec<String> = Vec::new();
    let name = match f {
        Framework::Vitest(_) => {
            argv.push(package_manager.to_owned());
            argv.push("vitest".to_owned());
            "vitest"
        },
        Framework::Playwright(_) => {
            argv.push(package_manager.to_owned());
            argv.push("playwright".to_owned());
            argv.push("test".to_owned());
            "playwright"
        },
        Framework::Jest(_) => {
            argv.push(package_manager.to_owned());
            argv.push("jest".to_owned());
            "jest"
        },
        Framework::Pytest(_) => {
            argv.push("pytest".to_owned());
            "pytest"
        },
        Framework::Go => {
            argv.push("go".to_owned());
            argv.push("test".to_owned());
            "go"
        },
        Framework::Rspec => {
            argv.push("rspec".to_owned());
            "rspec"
        },
    };
    assert(argv.deep_view() =~= runner(f.deep_view(), package_manager@).0);
    (argv, name)
}

/// The command line that runs the affected tests, one element per argument, and the name of the
/// framework.
pub fn build_run_argv(
    package_manager: &str,
    frameworks: &Vec<Framework>,
    affected: &Vec<AffectedTest>,
) -> (r: (Option<Vec<String>>, Option<String>))
    ensures
        opt_texts(r.0) == command_line(
            package_manager@,
            frameworks.deep_view(),
            affected.deep_view(),
        ),
        opt_text(r.1) == framework_name(
            package_manager@,
            frameworks.deep_view(),
            affected.deep_view(),
        ),
{
    let ghost fs = frameworks.deep_view();
    let ghost all = affected.deep_view();
    assert(fs.len() == frameworks@.len() && all.len() == affected@.len());
    if frameworks.len() == 0 {
        return (None, None);
    }
    assert(fs[0] == frameworks@[0].deep_view());
    if affected.len() == 0 {
        return (None, Some(frameworks[0].label()));
    }
    let (mut argv, name) = start_of(&frameworks[0], package_manager);
    let ghost start = argv.deep_view();
    let ghost files = test_files(all);
    let mut k: usize = 0;
    assert(start + files.take(0) =~= start);
    while k < affected.len()
        invariant
            0 <= k <= affected@.len(),
            all == affected.deep_view(),
            files == test_files(all),
            argv.deep_view() == start + files.take(k as int),
        decreases affected@.len() - k,
    {
        let ghost before = argv.deep_view();
        argv.push(affected[k].test_file.clone());
        proof {
            assert(all[k as int] == affected@[k as int].deep_view());
            assert(argv.deep_view() =~= before.push(files[k as int]));
            assert(before.push(files[k as int]) =~= start + files.take(k + 1));
        }
        k += 1;
    }
    assert(files.take(k as int) =~= files);
    (Some(argv), Some(name.to_owned()))
}

/// What `compute_with_argv` found out.
pub struct AffectedComputation {
    pub result: AffectedTestsResult,
    /// The run command, one element per argument.
    pub argv: Option<Vec<String>>,
    /// What the cache has to change, where it was used.
    pub build: Option<CachedBuild>,
}

/// Answers of a provider without any history.
pub open spec fn no_answers(n: nat) -> Seq<HistoryAnswer> {
    Seq::new(n, |k: int| HistoryAnswer { coverage: None, failure: None })
}

/// The findings of a run match the strategy that was asked for: heuristics alone, the import graph
/// with a cache, or the import graph from scratch.
pub open spec fn is_computed(
    c: AffectedComputation,
    tree: &ProjectTree,
    changed: Seq<Seq<char>>,
    graph: bool,
    cache: Option<Vec<CachedFile>>,
) -> bool {
    let found = c.result.affected.deep_view();
    let attempted = c.result.signals.attempted.deep_view();
    let unavailable = c.result.signals.unavailable.deep_view();
    if !graph {
        &&& c.build is None
        &&& is_top(found, heuristic_findings(tree@, changed, changed.len() as int))
        &&& attempted == seq!["naming_convention"@, "directory_proximity"@]
        &&& unavailable == seq!["import_graph"@, "coverage_history"@, "failure_history"@]
    } else {
        match cache {
            Some(files) => {
                &&& c.build is Some <==> any_source(changed, changed.len() as int)
                &&& match c.build {
                    Some(build) => is_cached_build(build, tree, files@) && is_graph_outcome(
                        found,
                        tree@,
                        build.graph@,
                        changed,
                    ),
                    None => is_graph_outcome(found, tree@, Set::empty(), changed),
                }
                &&& attempted == seq![
                    "naming_convention"@,
                    "directory_proximity"@,
                    "import_graph"@,
                ]
                &&& unavailable == seq!["coverage_history"@, "failure_history"@]
            },
            None => c.build is None && exists|run: AffectedTestsRun|
                run.affected == c.result.affected && run.signals == c.result.signals
                    && #[trigger] is_history_run(
                    run,
                    tree,
                    changed,
                    no_answers(changed.len()),
                    true,
                ),
        }
    }
}

/// The run command of a computation is that of its findings, in both of its forms.
pub open spec fn has_command(c: AffectedComputation, tree: &ProjectTree) -> bool {
    let found = c.result.affected.deep_view();
    let line = command_line(package_manager(tree@), frameworks_in(tree@), found);
    &&& opt_texts(c.argv) == line
    &&& opt_text(c.result.run_command) == (match line {
        Some(words) => Some(join(words, " "@)),
        None => None,
    })
    &&& opt_text(c.result.framework) == framework_name(
        package_manager(tree@),
        frameworks_in(tree@),
        found,
    )
}

fn texts3(a: &str, b: &str, c: &str) -> (r: Vec<String>)
    ensures
        r.deep_view() == seq![a@, b@, c@],
{
    let mut r: Vec<String> = Vec::new();
    r.push(a.to_owned());
    r.push(b.to_owned());
    r.push(c.to_owned());
    assert(r.deep_view() =~= seq![a@, b@, c@]);
    r
}

fn texts2(a: &str, b: &str) -> (r: Vec<String>)
    ensures
        r.deep_view() == seq![a@, b@],
{
    let mut r: Vec<String> = Vec::new();
    r.push(a.to_owned());
    r.push(b.to_owned());
    assert(r.deep_view() =~= seq![a@, b@]);
    r
}

/// The affected tests of the changed files, with the command that runs them as a text and as a
/// list of arguments. With `graph`, imports count too; the cache is used where one is given.
pub fn compute_with_argv(
    tree: &ProjectTree,
    files: &Vec<String>,
    graph: bool,
    cache: &Option<Vec<CachedFile>>,
) -> (c: AffectedComputation)
    ensures
        is_computed(c, tree, files.deep_view(), graph, *cache),
        has_command(c, tree),
{
    let ghost changed = files.deep_view();
    assert(changed.len() == files@.len());
    let mut build: Option<CachedBuild> = None;
    let affected: Vec<AffectedTest>;
    let signals: AffectedTestsSignalCoverage;
    if !graph {
        affected = find_affected_tests(tree, files);
        signals =
        AffectedTestsSignalCoverage {
            attempted: texts2("naming_convention", "directory_proximity"),
            unavailable: texts3("import_graph", "coverage_history", "failure_history"),
        };
    } else {
        match cache {
            Some(cached) => {
                let found = find_affected_tests_with_graph_cached(tree, files, cached);
                affected = found.affected;
                build = found.build;
                signals =
                AffectedTestsSignalCoverage {
                    attempted: texts3("naming_convention", "directory_proximity", "import_graph"),
                    unavailable: texts2("coverage_history", "failure_history"),
                };
            },
            None => {
                let mut answers: Vec<HistoryAnswer> = Vec::new();
                let mut k: usize = 0;
                while k < files.len()
                    invariant
                        0 <= k <= files@.len(),
                        answers@ == no_answers(k as nat),
                    decreases files@.len() - k,
                {
                    answers.push(HistoryAnswer { coverage: None, failure: None });
                    k += 1;
                    assert(answers@ =~= no_answers(k as nat));
                }
                let run = find_affected_tests_with_answers(tree, files, &answers, true);
                assert(is_history_run(run, tree, changed, no_answers(changed.len()), true));
                affected = run.affected;
                signals = run.signals;
            },
        }
    }
    let frameworks = detect_frameworks(tree);
    let manager = detect_package_manager(tree);
    let (argv, framework) = build_run_argv(manager, &frameworks, &affected);
    let run_command = match &argv {
        Some(words) => Some(join_texts(words, " ")),
        None => None,
    };
    AffectedComputation {
        result: AffectedTestsResult { affected, run_command, framework, signals },
        argv,
        build,
    }
}

/// The affected tests of the changed files.
pub fn compute(
    tree: &ProjectTree,
    files: &Vec<String>,
    graph: bool,
    cache: &Option<Vec<CachedFile>>,
) -> (r: AffectedTestsResult)
    ensures
        exists|c: AffectedComputation|
            c.result == r && #[trigger] is_computed(c, tree, files.deep_view(), graph, *cache)
                && has_command(c, tree),
{
    let c = compute_with_argv(tree, files, graph, cache);
    c.result
}

/// A run command exists in both forms or in neither, and only where tests are affected.
pub proof fn commands_need_tests(c: AffectedComputation, tree: &ProjectTree)
    requires
        has_command(c, tree),
    ensures
        c.argv is Some <==> c.result.run_command is Some,
        c.result.affected.deep_view().len() == 0 ==> c.result.run_command is None,
{
}

/// Why no test is affected.
pub open spec fn nothing_affected(unavailable: Seq<Seq<char>>) -> Seq<char> {
    if unavailable.len() == 0 {
        "[gaffer] No affected tests for the given files."@
    } else {
        "[gaffer] No affected tests, but signals were unavailable: "@ + join(unavailable, ", "@)
            + ". Consider escalating scope."@
    }
}

fn explain_nothing(unavailable: &Vec<String>) -> (r: String)
    ensures
        r@ == nothing_affected(unavailable.deep_view()),
{
    assert(unavailable.deep_view().len() == unavailable@.len());
    if unavailable.len() == 0 {
        "[gaffer] No affected tests for the given files.".to_owned()
    } else {
        concat3(
            "[gaffer] No affected tests, but signals were unavailable: ",
            join_texts(unavailable, ", ").as_str(),
            ". Consider escalating scope.",
        )
    }
}

/// The exit code and the text of `--print-cmd`: the command on its own, or why there is none.
pub fn print_cmd_outcome(result: &AffectedTestsResult) -> (r: (i32, String))
    ensures
        match result.run_command {
            Some(cmd) => r.0 == 0 && r.1@ == cmd@,
            None => r.0 == 1 && r.1@ == nothing_affected(result.signals.unavailable.deep_view()),
        },
{
    match &result.run_command {
        Some(cmd) => (0, cmd.clone()),
        None => (1, explain_nothing(&result.signals.unavailable)),
    }
}

/// How a run of the affected tests ends where there are none.
#[derive(Clone, Copy, PartialEq, Eq, Structural, Debug)]
pub enum OnEmpty {
    /// Well only if every way to find affected tests was available.
    Auto,
    Skip,
    Fail,
}

/// The exit code and the explanation of a run of the affected tests that finds none.
pub fn empty_outcome(unavailable: &Vec<String>, on_empty: OnEmpty) -> (r: (i32, String))
    ensures
        r.0 == (match on_empty {
            OnEmpty::Skip => 0i32,
            OnEmpty::Fail => 1i32,
            OnEmpty::Auto => if unavailable@.len() == 0 {
                0i32
            } else {
                1i32
            },
        }),
        r.1@ == nothing_affected(unavailable.deep_view()),
{
    let code: i32 = match on_empty {
        OnEmpty::Skip => 0,
        OnEmpty::Fail => 1,
        OnEmpty::Auto => if unavailable.len() == 0 {
            0
        } else {
            1
        },
    };
    (code, explain_nothing(unavailable))
}

/// What `gaffer test` is to run.
pub enum TestRequest {
    /// The command that the user gave.
    Command,
    /// The affected tests.
    Affected,
    /// Nothing, for this reason.
    Refused(String),
}

/// What `gaffer test` is to run. A command is ignored where the affected tests are asked for.
pub fn test_request(affected: bool, files: &Vec<String>, command: &Vec<String>) -> (r: TestRequest)
    ensures
        match r {
            TestRequest::Command => !affected && command@.len() > 0,
            TestRequest::Affected => affected && files@.len() > 0,
            TestRequest::Refused(reason) => if affected {
                files@.len() == 0 && reason@
                    == "--affected needs the changed files. Pass --files <paths>."@
            } else {
                command@.len() == 0 && reason@
                    == "No command provided. Usage: gaffer test -- <command>"@
            },
        },
{
    if affected {
        if files.len() > 0 {
            TestRequest::Affected
        } else {
            TestRequest::Refused(
                "--affected needs the changed files. Pass --files <paths>.".to_owned(),
            )
        }
    } else if command.len() > 0 {
        TestRequest::Command
    } else {
        TestRequest::Refused("No command provided. Usage: gaffer test -- <command>".to_owned())
    }
}

// ---------------------------------------------------------------------------------------------
// Test runs
// ---------------------------------------------------------------------------------------------
/// What a report file turned out to be.
pub enum ReportOutcome {
    /// A coverage report, with its text and file name.
    Coverage { content: String, filename: String },
    Tests { framework: String, tests: Vec<TestEvent> },
    /// Nothing that can be used.
    Unusable,
}

/// What the report files of a run say together.
pub struct CollectedReports {
    pub tests: Vec<TestEvent>,
    /// The framework of the first report that names one; `unknown` where none does.
    pub framework: String,
    /// The last coverage report: its text and file name.
    pub coverage: Option<(String, String)>,
}

/// The tests of the first `n` reports, in order.
pub open spec fn tests_upto(list: Seq<ReportOutcome>, n: int) -> Seq<TestEvent>
    decreases n,
{
    if n <= 0 {
        Seq::empty()
    } else {
        match list[n - 1] {
            ReportOutcome::Tests { framework, tests } => tests_upto(list, n - 1) + tests@,
            _ => tests_upto(list, n - 1),
        }
    }
}

/// The framework of the first of the first `n` reports that names one other than `unknown`.
pub open spec fn framework_upto(list: Seq<ReportOutcome>, n: int) -> Seq<char>
    decreases n,
{
    if n <= 0 {
        "unknown"@
    } else {
        let known = framework_upto(list, n - 1);
        match list[n - 1] {
            ReportOutcome::Tests { framework, tests } => if known == "unknown"@ {
                framework@
            } else {
                known
            },
            _ => known,
        }
    }
}

/// The last coverage report among the first `n` reports.
pub open spec fn coverage_upto(list: Seq<ReportOutcome>, n: int) -> Option<(Seq<char>, Seq<char>)>
    decreases n,
{
    if n <= 0 {
        None
    } else {
        match list[n - 1] {
            ReportOutcome::Coverage { content, filename } => Some((content@, filename@)),
            _ => coverage_upto(list, n - 1),
        }
    }
}

/// Puts the reports of a run together.
pub fn collect_reports(reports: Vec<ReportOutcome>) -> (r: CollectedReports)
    ensures
        r.tests@ == tests_upto(reports@, reports@.len() as int),
        r.framework@ == framework_upto(reports@, reports@.len() as int),
        match r.coverage {
            Some((content, filename)) => coverage_upto(reports@, reports@.len() as int) == Some(
                (content@, filename@),
            ),
            None => coverage_upto(reports@, reports@.len() as int) is None,
        },
{
    let ghost all = reports@;
    let mut queue = reversed(reports);
    let mut tests: Vec<TestEvent> = Vec::new();
    let mut framework: String = "unknown".to_owned();
    let mut coverage: Option<(String, String)> = None;
    let ghost mut n: int = 0;
    assert(all.skip(0) =~= all);
    assert(tests@ =~= tests_upto(all, 0));
    while queue.len() > 0
        invariant
            0 <= n,
            n + queue@.len() == all.len(),
            queue@ == all.skip(n).reverse(),
            tests@ == tests_upto(all, n),
            framework@ == framework_upto(all, n),
            match coverage {
                Some((content, filename)) => coverage_upto(all, n) == Some((content@, filename@)),
                None => coverage_upto(all, n) is None,
            },
        decreases queue@.len(),
    {
        assert(queue@.last() == all[n]);
        if let Some(outcome) = queue.pop() {
            assert(queue@ =~= all.skip(n + 1).reverse());
            match outcome {
                ReportOutcome::Coverage { content, filename } => {
                    coverage = Some((content, filename));
                },
                ReportOutcome::Tests { framework: name, tests: more } => {
                    if same(framework.as_str(), "unknown") {
                        framework = name;
                    }
                    let mut more = more;
                    tests.append(&mut more);
                },
                ReportOutcome::Unusable => {},
            }
            proof {
                n = n + 1;
            }
        }
    }
    CollectedReports { tests, framework, coverage }
}

/// Whether a failure is the developer's doing.
#[derive(Clone, Copy, PartialEq, Eq, Structural, Debug)]
pub enum FailureClassification {
    New,
    PreExisting,
    Flaky,
    /// There is no baseline to compare with.
    Unknown,
}

/// Whether some failure is new, or cannot be told to be old.
pub open spec fn has_new_failure(list: Seq<FailureClassification>) -> bool {
    exists|k: int|
        0 <= k < list.len() && (#[trigger] list[k] == FailureClassification::New || list[k]
            == FailureClassification::Unknown)
}

/// What kind of failure a failed test is.
pub open spec fn classified(
    name: Seq<char>,
    flaky: Seq<Seq<char>>,
    old_failures: Option<Seq<Seq<char>>>,
) -> FailureClassification {
    if old_failures is Some && listed(old_failures->0, name) {
        FailureClassification::PreExisting
    } else if listed(flaky, name) {
        FailureClassification::Flaky
    } else if old_failures is Some {
        FailureClassification::New
    } else {
        FailureClassification::Unknown
    }
}

/// What kinds of failures the failed tests are: those that already failed on the baseline, where
/// there is one, are old; flaky tests may fail at any time.
pub fn classify_failures(
    failed: &Vec<String>,
    flaky: &Vec<String>,
    old_failures: &Option<Vec<String>>,
) -> (r: Vec<FailureClassification>)
    ensures
        r@.len() == failed@.len(),
        forall|k: int|
            0 <= k < r@.len() ==> #[trigger] r@[k] == classified(
                failed@[k]@,
                flaky.deep_view(),
                opt_texts(*old_failures),
            ),
{
    let mut r: Vec<FailureClassification> = Vec::new();
    let mut n: usize = 0;
    while n < failed.len()
        invariant
            0 <= n <= failed@.len(),
            r@.len() == n,
            forall|k: int|
                0 <= k < n ==> #[trigger] r@[k] == classified(
                    failed@[k]@,
                    flaky.deep_view(),
                    opt_texts(*old_failures),
                ),
        decreases failed@.len() - n,
    {
        let name = failed[n].as_str();
        let is_old = match old_failures {
            Some(list) => has_text(list, name),
            None => false,
        };
        let kind = if is_old {
            FailureClassification::PreExisting
        } else if has_text(flaky, name) {
            FailureClassification::Flaky
        } else if old_failures.is_some() {
            FailureClassification::New
        } else {
            FailureClassification::Unknown
        };
        r.push(kind);
        n += 1;
    }
    r
}

/// With `--fail-on new`, a run whose failures are all old or flaky succeeds, and any other fails.
pub proof fn only_new_failures_count(
    failed: Seq<Seq<char>>,
    flaky: Seq<Seq<char>>,
    old_failures: Seq<Seq<char>>,
    kinds: Seq<FailureClassification>,
)
    requires
        kinds.len() == failed.len(),
        forall|k: int|
            0 <= k < kinds.len() ==> #[trigger] kinds[k] == classified(
                failed[k],
                flaky,
                Some(old_failures),
            ),
    ensures
        has_new_failure(kinds) <==> exists|k: int|
            0 <= k < failed.len() && !listed(old_failures, #[trigger] failed[k]) && !listed(
                flaky,
                failed[k],
            ),
{
    if has_new_failure(kinds) {
        let k = choose|k: int|
            0 <= k < kinds.len() && (#[trigger] kinds[k] == FailureClassification::New || kinds[k]
                == FailureClassification::Unknown);
        assert(kinds[k] == classified(failed[k], flaky, Some(old_failures)));
        assert(!listed(old_failures, failed[k]));
    }
    if exists|k: int|
        0 <= k < failed.len() && !listed(old_failures, #[trigger] failed[k]) && !listed(
            flaky,
            failed[k],
        ) {
        let k = choose|k: int|
            0 <= k < failed.len() && !listed(old_failures, #[trigger] failed[k]) && !listed(
                flaky,
                failed[k],
            );
        assert(kinds[k] == FailureClassification::New);
    }
}

/// The exit code of a run: that of the test command, unless only new failures count. Then old and
/// flaky failures are forgiven, and new ones never are.
pub fn final_exit_code(
    exit_code: i32,
    fail_on: &Option<FailOn>,
    failures: &Vec<FailureClassification>,
) -> (r: i32)
    ensures
        *fail_on is None ==> r == exit_code,
        *fail_on is Some ==> r == (if !has_new_failure(failures@) {
            0
        } else if exit_code > 1 {
            exit_code
        } else {
            1
        }),
{
    if fail_on.is_none() {
        return exit_code;
    }
    let mut k: usize = 0;
    while k < failures.len()
        invariant
            0 <= k <= failures@.len(),
            *fail_on is Some,
            forall|j: int|
                0 <= j < k ==> #[trigger] failures@[j] != FailureClassification::New
                    && failures@[j] != FailureClassification::Unknown,
        decreases failures@.len() - k,
    {
        if failures[k] == FailureClassification::New || failures[k]
            == FailureClassification::Unknown {
            assert(has_new_failure(failures@));
            return if exit_code > 1 {
                exit_code
            } else {
                1
            };
        }
        k += 1;
    }
    0
}

/// The exit code of the test command: 128 and the signal that killed it, its own code, or 1 where
/// it has none.
pub fn child_exit_code(signal: Option<i32>, code: Option<i32>) -> (r: i32)
    requires
        signal is Some ==> signal->0 <= i32::MAX - 128,
    ensures
        r == match signal {
            Some(s) => 128 + s,
            None => match code {
                Some(c) => c as int,
                None => 1,
            },
        },
{
    match signal {
        Some(s) => 128 + s,
        None => match code {
            Some(c) => c,
            None => 1,
        },
    }
}

/// Whether the value of `GAFFER_DEBUG` turns debug output on.
pub fn is_debug(value: &Option<String>) -> (r: bool)
    ensures
        r == (match nonempty(*value) {
            Some(v) => v != "0"@,
            None => false,
        }),
{
    match value {
        Some(v) => !v.as_str().is_empty() && !same(v.as_str(), "0"),
        None => false,
    }
}

// ---------------------------------------------------------------------------------------------
// Upload
// ---------------------------------------------------------------------------------------------
/// The token that is configured: by flag, else by one of the variables, the current name before
/// the older ones. An empty text counts as none.
pub open spec fn configured(
    flag: Option<String>,
    project: Option<String>,
    upload: Option<String>,
    plain: Option<String>,
) -> Option<Seq<char>> {
    first_of_two(
        nonempty(flag),
        first_of_two(nonempty(project), first_of_two(nonempty(upload), nonempty(plain))),
    )
}

/// The token that is configured.
pub fn configured_token(
    flag: &Option<String>,
    project: &Option<String>,
    upload: &Option<String>,
    plain: &Option<String>,
) -> (r: Option<String>)
    ensures
        opt_text(r) == configured(*flag, *project, *upload, *plain),
{
    if let Some(t) = flag {
        if !t.as_str().is_empty() {
            return Some(t.clone());
        }
    }
    if let Some(t) = project {
        if !t.as_str().is_empty() {
            return Some(t.clone());
        }
    }
    if let Some(t) = upload {
        if !t.as_str().is_empty() {
            return Some(t.clone());
        }
    }
    if let Some(t) = plain {
        if !t.as_str().is_empty() {
            return Some(t.clone());
        }
    }
    None
}

/// The failure of an upload without a token.
pub open spec fn no_token(exchange: Option<OidcError>) -> Failure {
    failure(
        Blame::User,
        "missing_token"@,
        match exchange {
            Some(e) => "Project token not provided and the GitHub Actions OIDC exchange failed: "@
                + oidc_message(e)
                + ". Grant `permissions: id-token: write` to this job, or pass --token / set GAFFER_PROJECT_TOKEN."@,
            None =>
                "Project token not provided. Pass --token, set GAFFER_PROJECT_TOKEN, or on GitHub Actions grant `permissions: id-token: write` so gaffer can authenticate automatically."@,
        },
    )
}

/// The token of an upload: the one that is configured, else the one that the runner's identity was
/// exchanged for. `exchange` is missing where the runner has no identity to exchange.
pub fn resolve_token(
    configured_token: Option<String>,
    exchange: Option<Result<ExchangedToken, OidcError>>,
) -> (r: Result<String, UploadError>)
    ensures
        match configured_token {
            Some(t) => r == Result::<String, UploadError>::Ok(t),
            None => match exchange {
                Some(Ok(t)) => r == Result::<String, UploadError>::Ok(t.access_token),
                Some(Err(e)) => r is Err && r->Err_0.deep_view() == no_token(Some(e)),
                None => r is Err && r->Err_0.deep_view() == no_token(None),
            },
        },
{
    if let Some(t) = configured_token {
        return Ok(t);
    }
    match exchange {
        Some(Ok(t)) => Ok(t.access_token),
        Some(Err(e)) => {
            let message = concat3(
                "Project token not provided and the GitHub Actions OIDC exchange failed: ",
                e.message().as_str(),
                ". Grant `permissions: id-token: write` to this job, or pass --token / set GAFFER_PROJECT_TOKEN.",
            );
            Err(UploadError::user("missing_token", message.as_str()))
        },
        None => Err(
            UploadError::user(
                "missing_token",
                "Project token not provided. Pass --token, set GAFFER_PROJECT_TOKEN, or on GitHub Actions grant `permissions: id-token: write` so gaffer can authenticate automatically.",
            ),
        ),
    }
}

/// What lies behind a failure.
pub open spec fn cause_of(f: Failure) -> Seq<char> {
    match f.blame {
        Blame::User => if f.kind == "missing_token"@ {
            "no project token was supplied"@
        } else if f.kind == "no_files"@ {
            "the path did not resolve to any files"@
        } else if f.kind == "file_too_large"@ {
            "a file exceeds the configured per-file limit"@
        } else if f.kind == "path_not_found"@ {
            "the path does not exist or is unreadable"@
        } else if f.kind == "path_walk_failed"@ {
            "directory walk failed"@
        } else if f.kind == "path_unsupported"@ {
            "path is neither a regular file nor a directory"@
        } else if f.kind == "io_error"@ {
            "local filesystem error reading the file"@
        } else {
            "client-side validation rejected the request"@
        },
        Blame::Server => if f.kind == "auth_failed"@ {
            "the dashboard rejected the project token"@
        } else if f.kind == "quota_exceeded"@ {
            "the org's storage quota would be exceeded"@
        } else if f.kind == "file_too_large"@ {
            "the dashboard reported the file as too large"@
        } else if f.kind == "server_error"@ {
            "the dashboard returned a transient error after retries"@
        } else if f.kind == "network"@ {
            "network connectivity to the dashboard failed"@
        } else if f.kind == "empty_response"@ {
            "the dashboard returned a 2xx with no body — likely a transport hiccup; the upload may have succeeded"@
        } else {
            match f.status {
                Some(c) => if 500 <= c < 600 {
                    "server-side failure after retries"@
                } else {
                    "the dashboard rejected the request"@
                },
                None => "transport-layer failure"@,
            }
        },
        Blame::Nobody => "an unexpected internal error occurred"@,
    }
}

/// What lies behind a failed upload.
pub fn classify_cause(err: &UploadError) -> (r: &'static str)
    ensures
        r@ == cause_of(err.deep_view()),
{
    let kind = err.kind();
    match err {
        UploadError::UserError { .. } => {
            if same(kind, "missing_token") {
                "no project token was supplied"
            } else if same(kind, "no_files") {
                "the path did not resolve to any files"
            } else if same(kind, "file_too_large") {
                "a file exceeds the configured per-file limit"
            } else if same(kind, "path_not_found") {
                "the path does not exist or is unreadable"
            } else if same(kind, "path_walk_failed") {
                "directory walk failed"
            } else if same(kind, "path_unsupported") {
                "path is neither a regular file nor a directory"
            } else if same(kind, "io_error") {
                "local filesystem error reading the file"
            } else {
                "client-side validation rejected the request"
            }
        },
        UploadError::ServerError { status, .. } => {
            if same(kind, "auth_failed") {
                "the dashboard rejected the project token"
            } else if same(kind, "quota_exceeded") {
                "the org's storage quota would be exceeded"
            } else if same(kind, "file_too_large") {
                "the dashboard reported the file as too large"
            } else if same(kind, "server_error") {
                "the dashboard returned a transient error after retries"
            } else if same(kind, "network") {
                "network connectivity to the dashboard failed"
            } else if same(kind, "empty_response") {
                "the dashboard returned a 2xx with no body — likely a transport hiccup; the upload may have succeeded"
            } else {
                match status {
                    Some(c) => if 500 <= *c && *c < 600 {
                        "server-side failure after retries"
                    } else {
                        "the dashboard rejected the request"
                    },
                    None => "transport-layer failure",
                }
            }
        },
        UploadError::Unexpected { .. } => "an unexpected internal error occurred",
    }
}

/// What to do about a failure.
pub open spec fn fix_for(f: Failure) -> Seq<char> {
    match f.blame {
        Blame::User => if f.kind == "missing_token"@ {
            "pass --token <gfr_…>, set GAFFER_PROJECT_TOKEN, or on GitHub Actions grant `permissions: id-token: write` for automatic auth"@
        } else if f.kind == "no_files"@ {
            "verify the path or glob expands to at least one file"@
        } else if f.kind == "file_too_large"@ {
            "raise --max-file-size-mb or split the file"@
        } else if f.kind == "path_not_found"@ {
            "double-check the path and CI working directory"@
        } else if f.kind == "io_error"@ {
            "verify the file is readable and not in use"@
        } else {
            "review the error message and adjust the invocation"@
        },
        Blame::Server => if f.kind == "auth_failed"@ {
            "regenerate the project token in the project's settings"@
        } else if f.kind == "quota_exceeded"@ {
            "upgrade the plan or remove old reports to free space"@
        } else if f.kind == "file_too_large"@ {
            "the server's MPU ceiling is 5 GB — split the upload"@
        } else if f.kind == "server_error"@ {
            "retry; if it persists, contact support with the Ray ID"@
        } else if f.kind == "network"@ {
            "retry from a host with network access to the dashboard"@
        } else if f.kind == "empty_response"@ {
            "check the dashboard for the upload session before retrying — the upload may already have landed"@
        } else {
            "retry; if it persists, share the JSON error line with support"@
        },
        Blame::Nobody => "rerun with --debug and share the full output with support"@,
    }
}

/// What to do about a failed upload.
pub fn suggested_fix(err: &UploadError) -> (r: &'static str)
    ensures
        r@ == fix_for(err.deep_view()),
{
    let kind = err.kind();
    match err {
        UploadError::UserError { .. } => {
            if same(kind, "missing_token") {
                "pass --token <gfr_…>, set GAFFER_PROJECT_TOKEN, or on GitHub Actions grant `permissions: id-token: write` for automatic auth"
            } else if same(kind, "no_files") {
                "verify the path or glob expands to at least one file"
            } else if same(kind, "file_too_large") {
                "raise --max-file-size-mb or split the file"
            } else if same(kind, "path_not_found") {
                "double-check the path and CI working directory"
            } else if same(kind, "io_error") {
                "verify the file is readable and not in use"
            } else {
                "review the error message and adjust the invocation"
            }
        },
        UploadError::ServerError { .. } => {
            if same(kind, "auth_failed") {
                "regenerate the project token in the project's settings"
            } else if same(kind, "quota_exceeded") {
                "upgrade the plan or remove old reports to free space"
            } else if same(kind, "file_too_large") {
                "the server's MPU ceiling is 5 GB — split the upload"
            } else if same(kind, "server_error") {
                "retry; if it persists, contact support with the Ray ID"
            } else if same(kind, "network") {
                "retry from a host with network access to the dashboard"
            } else if same(kind, "empty_response") {
                "check the dashboard for the upload session before retrying — the upload may already have landed"
            } else {
                "retry; if it persists, share the JSON error line with support"
            }
        },
        UploadError::Unexpected { .. } =>
            "rerun with --debug and share the full output with support",
    }
}

// ---------------------------------------------------------------------------------------------
// Setup
// ---------------------------------------------------------------------------------------------
/// Whether a line of `.gitignore` covers the data directory.
pub open spec fn covers_data(line: Seq<char>) -> bool {
    let t = trim(line);
    t == ".gaffer/"@ || t == ".gaffer"@ || t == "/.gaffer/"@ || t == "/.gaffer"@
}

/// Whether one of the first `n` lines covers the data directory.
pub open spec fn is_covered(text: Seq<Seq<char>>, n: int) -> bool {
    exists|k: int| 0 <= k < n && covers_data(#[trigger] text[k])
}

/// The new text of a `.gitignore` that does not cover the data directory yet: the old one, ended by
/// a line feed, and one more line.
pub open spec fn with_data_ignored(content: Seq<char>) -> Seq<char> {
    if ends_with(content, "\n"@) {
        content + ".gaffer/\n"@
    } else {
        content + "\n"@ + ".gaffer/\n"@
    }
}

/// Once the data directory is ignored, nothing more is added.
pub proof fn data_is_ignored_once(content: Seq<char>)
    ensures
        is_covered(
            lines(with_data_ignored(content)),
            lines(with_data_ignored(content)).len() as int,
        ),
{
    reveal_strlit("\n");
    reveal_strlit(".gaffer/\n");
    reveal_strlit(".gaffer/");
    let line = ".gaffer/"@;
    let before = if ends_with(content, "\n"@) {
        content.drop_last()
    } else {
        content
    };
    let text = with_data_ignored(content);
    if ends_with(content, "\n"@) {
        assert(content.last() == content.subrange(content.len() - 1, content.len() as int)[0]);
        assert(content =~= before.push('\n'));
    }
    assert(text =~= (before.push('\n') + line).push('\n') + Seq::<char>::empty());
    split_ends_in_piece(before, line, '\n');
    split_ends_in_piece(before.push('\n') + line, Seq::empty(), '\n');
    let parts = split_on(text, '\n');
    let at = parts.len() - 2;
    assert(parts[at] == line);
    assert(lines(text)[at] == line);
    assert(trim(line) == line) by {
        assert(!is_space('.') && !is_space('/'));
    }
    assert(covers_data(lines(text)[at]));
}

/// The new text of a `.gitignore`; `None` where it covers the data directory already.
pub fn ensure_gitignore(content: &str) -> (r: Option<String>)
    ensures
        r is None <==> is_covered(lines(content@), lines(content@).len() as int),
        match r {
            Some(text) => text@ == with_data_ignored(content@),
            None => true,
        },
{
    let text = lines_of(content);
    let ghost all = lines(content@);
    let mut k: usize = 0;
    while k < text.len()
        invariant
            0 <= k <= text@.len(),
            rows(text@) == all,
            all == lines(content@),
            forall|j: int| 0 <= j < k ==> !covers_data(#[trigger] all[j]),
        decreases text@.len() - k,
    {
        assert(all[k as int] == text@[k as int]@);
        let line = trim_chars(&text[k]);
        if spells(&line, ".gaffer/") || spells(&line, ".gaffer") || spells(&line, "/.gaffer/")
            || spells(&line, "/.gaffer") {
            assert(covers_data(all[k as int]));
            return None;
        }
        k += 1;
    }
    assert(all.len() == text@.len());
    if has_suffix(content, "\n") {
        Some(concat2(content, ".gaffer/\n"))
    } else {
        Some(concat3(content, "\n", ".gaffer/\n"))
    }
}

/// The files that only the root of several projects holds.
pub open spec fn shared_root_markers() -> Seq<Seq<char>> {
    seq!["pnpm-workspace.yaml"@, "turbo.json"@, "nx.json"@, "lerna.json"@, "go.work"@]
}

/// The files that only the root of several projects holds.
pub fn markers_of_shared_roots() -> (r: Vec<&'static str>)
    ensures
        r.deep_view() == shared_root_markers(),
{
    let r = vec!["pnpm-workspace.yaml", "turbo.json", "nx.json", "lerna.json", "go.work"];
    assert(r.deep_view() =~= shared_root_markers());
    r
}

/// What stands in a directory that may be the root of several projects.
pub struct DirFacts {
    /// Names of files and directories that are there, the markers among them.
    pub names: Vec<String>,
    /// The text of `package.json`, where it could be read.
    pub package_json: Option<String>,
    /// The text of `Cargo.toml`, where it could be read.
    pub cargo_toml: Option<String>,
}

/// One of the names is a marker.
pub open spec fn has_marker(names: Seq<String>) -> bool {
    exists|k: int| 0 <= k < names.len() && listed(shared_root_markers(), #[trigger] names[k]@)
}

/// Whether a directory is the root of several projects, given whether its `package.json` has a
/// member `workspaces`.
pub open spec fn is_shared_root(d: DirFacts, has_workspaces: bool) -> bool {
    has_marker(d.names@) || has_workspaces || match d.cargo_toml {
        Some(text) => contains(text@, "[workspace]"@),
        None => false,
    }
}

fn shows_marker(names: &Vec<String>) -> (r: bool)
    ensures
        r == has_marker(names@),
{
    let markers = markers_of_shared_roots();
    let mut k: usize = 0;
    while k < names.len()
        invariant
            0 <= k <= names@.len(),
            markers.deep_view() == shared_root_markers(),
            forall|j: int| 0 <= j < k ==> !listed(shared_root_markers(), #[trigger] names@[j]@),
        decreases names@.len() - k,
    {
        if is_listed(&markers, names[k].as_str()) {
            assert(listed(shared_root_markers(), names@[k as int]@));
            return true;
        }
        k += 1;
    }
    false
}

/// Whether a directory is the root of several projects, given whether its `package.json` has a
/// member `workspaces`.
pub fn judge_dir(d: &DirFacts, has_workspaces: bool) -> (r: bool)
    ensures
        r == is_shared_root(*d, has_workspaces),
{
    if shows_marker(&d.names) || has_workspaces {
        return true;
    }
    match &d.cargo_toml {
        Some(text) => has(text.as_str(), "[workspace]"),
        None => false,
    }
}

/// Whether a `package.json` has a member `workspaces`.
pub open spec fn lists_workspaces(d: DirFacts) -> bool {
    match d.package_json {
        Some(text) => is_there(field_at(text@, "/workspaces"@)),
        None => false,
    }
}

/// Whether one of the directories, from the project's own up to the root, is the root of several
/// projects.
pub fn is_in_monorepo(dirs: &Vec<DirFacts>) -> (r: bool)
    ensures
        r == exists|k: int|
            0 <= k < dirs@.len() && is_shared_root(
                #[trigger] dirs@[k],
                lists_workspaces(dirs@[k]),
            ),
{
    let mut k: usize = 0;
    while k < dirs.len()
        invariant
            0 <= k <= dirs@.len(),
            forall|j: int|
                0 <= j < k ==> !is_shared_root(#[trigger] dirs@[j], lists_workspaces(dirs@[j])),
        decreases dirs@.len() - k,
    {
        let d = &dirs[k];
        let workspaces = match &d.package_json {
            Some(text) => field_is_there(&json_field(text.as_str(), "/workspaces")),
            None => false,
        };
        if judge_dir(d, workspaces) {
            assert(is_shared_root(dirs@[k as int], lists_workspaces(dirs@[k as int])));
            return true;
        }
        k += 1;
    }
    false
}

} // verus!
