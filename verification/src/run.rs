//! Test runs: their events, summaries, comparison with a baseline, and what is sent to the
//! dashboard.
use vstd::hash_map::StringHashMap;
use vstd::prelude::*;

use crate::cluster::{
    cluster_failures, is_clustering, is_fingerprint, FailedTest, FailureCluster, Fingerprint,
};
use crate::duration::{
    analyze_duration, analyze_slowest, duration_keys, is_analysis, DurationAnalysis, TimedTest,
    SLOWEST_LISTED,
};
use crate::error::GafferError;
use crate::flaky::{
    detect_flaky_tests, flaky_firsts, is_flaky_report, is_print, FlakyTestResult, HistoricalTest,
};
use crate::health::{calculate_health_score, is_health, HealthScore, Points};
use crate::ranking::{ascending, insert_text, is_ranking};
use crate::status::{FAILED, PASSED, SKIPPED, TODO};
use crate::text::{
    chars_of, concat2, concat3, listed, same, text_of, trim_end_by, trim_end_of,
};
use crate::upload::DEFAULT_API_URL;

verus! {

/// Where results are kept and sent.
pub struct GafferConfig {
    /// Missing where results stay local.
    pub token: Option<String>,
    pub api_url: Option<String>,
    /// The directory whose `.gaffer` holds the results.
    pub project_root: String,
}

impl GafferConfig {
    /// Whether results are sent to the dashboard.
    pub fn has_token(&self) -> (r: bool)
        ensures
            r == (self.token is Some),
    {
        self.token.is_some()
    }
}

/// How a run was started.
pub struct RunMetadata {
    pub branch: Option<String>,
    pub commit: Option<String>,
    pub ci_provider: Option<String>,
    pub framework: String,
}

/// The outcome of one test.
pub struct TestEvent {
    /// Fully qualified.
    pub name: String,
    /// One of the constants in `status`.
    pub status: String,
    /// In nanoseconds.
    pub duration: u64,
    pub file_path: Option<String>,
    pub error: Option<String>,
    pub retry_count: Option<i32>,
    pub flaky: Option<bool>,
}

/// The outcome of a run.
pub struct RunSummary {
    pub total: i32,
    pub passed: i32,
    pub failed: i32,
    pub skipped: i32,
    /// In nanoseconds.
    pub duration: u64,
}

// ---------------------------------------------------------------------------------------------
// Recording
// ---------------------------------------------------------------------------------------------
/// Whether a status is one that tests can have.
pub open spec fn is_status(s: Seq<char>) -> bool {
    s == PASSED@ || s == FAILED@ || s == SKIPPED@ || s == TODO@
}

/// Checks that a test has a status that tests can have.
pub fn check_status(test: &TestEvent) -> (r: Result<(), GafferError>)
    ensures
        r is Ok <==> is_status(test.status@),
        match r {
            Ok(_) => true,
            Err(e) => e is Parse && e->Parse_0@ == "Invalid test status '"@ + test.status@
                + "'. Must be one of: passed, failed, skipped, todo"@,
        },
{
    let s = test.status.as_str();
    if same(s, PASSED) || same(s, FAILED) || same(s, SKIPPED) || same(s, TODO) {
        Ok(())
    } else {
        Err(
            GafferError::Parse(
                concat3(
                    "Invalid test status '",
                    s,
                    "'. Must be one of: passed, failed, skipped, todo",
                ),
            ),
        )
    }
}

/// How many of the first `n` tests have the status `s`.
pub open spec fn count_status(tests: Seq<TestEvent>, s: Seq<char>, n: int) -> nat
    decreases n,
{
    if n <= 0 {
        0
    } else {
        count_status(tests, s, n - 1) + if tests[n - 1].status@ == s {
            1nat
        } else {
            0nat
        }
    }
}

/// No test is counted twice: the passed and the failed ones are at most all.
pub proof fn statuses_are_disjoint(tests: Seq<TestEvent>, n: int)
    requires
        0 <= n <= tests.len(),
    ensures
        count_status(tests, PASSED@, n) + count_status(tests, FAILED@, n) <= n,
    decreases n,
{
    if n > 0 {
        statuses_are_disjoint(tests, n - 1);
        reveal_strlit("passed");
        reveal_strlit("failed");
        assert(PASSED@[0] != FAILED@[0]);
    }
}

/// The summary of a run: how many tests there were, how many passed and failed, and the rest.
pub fn summarize_tests(tests: &Vec<TestEvent>, duration: u64) -> (r: RunSummary)
    requires
        tests@.len() <= i32::MAX,
    ensures
        r.total == tests@.len(),
        r.passed == count_status(tests@, PASSED@, tests@.len() as int),
        r.failed == count_status(tests@, FAILED@, tests@.len() as int),
        r.skipped == r.total - r.passed - r.failed,
        r.skipped >= 0,
        r.duration == duration,
{
    let mut passed: i32 = 0;
    let mut failed: i32 = 0;
    let mut n: usize = 0;
    while n < tests.len()
        invariant
            0 <= n <= tests@.len() <= i32::MAX,
            passed == count_status(tests@, PASSED@, n as int),
            failed == count_status(tests@, FAILED@, n as int),
            0 <= passed <= n,
            0 <= failed <= n,
        decreases tests@.len() - n,
    {
        if same(tests[n].status.as_str(), PASSED) {
            passed = passed + 1;
        }
        if same(tests[n].status.as_str(), FAILED) {
            failed = failed + 1;
        }
        n += 1;
    }
    proof {
        statuses_are_disjoint(tests@, tests@.len() as int);
    }
    let total: i32 = tests.len() as i32;
    RunSummary { total, passed, failed, skipped: total - passed - failed, duration }
}

// ---------------------------------------------------------------------------------------------
// Parsed reports
// ---------------------------------------------------------------------------------------------
/// A test's outcome as report formats know it.
pub enum TestStatus {
    Passed,
    Failed,
    TimedOut,
    Skipped,
    Flaky,
}

/// A test as a report describes it.
pub struct TestCase {
    pub full_name: String,
    pub status: TestStatus,
    pub duration_ms: Option<u64>,
    pub error_message: Option<String>,
    pub file_path: Option<String>,
    pub retry_attempt: Option<u32>,
}

/// The recorded status of a reported outcome: a timeout is a failure, a flaky test passed.
pub open spec fn recorded_status(s: TestStatus) -> Seq<char> {
    match s {
        TestStatus::Passed => PASSED@,
        TestStatus::Failed => FAILED@,
        TestStatus::TimedOut => FAILED@,
        TestStatus::Skipped => SKIPPED@,
        TestStatus::Flaky => PASSED@,
    }
}

/// Milliseconds in nanoseconds, as far as they fit.
pub open spec fn ns_of_ms(ms: u64) -> u64 {
    if ms * 1_000_000 > u64::MAX {
        u64::MAX
    } else {
        (ms * 1_000_000) as u64
    }
}

/// The event that a reported test is recorded as.
pub fn convert_test_case(tc: TestCase) -> (r: TestEvent)
    ensures
        r.name == tc.full_name,
        r.status@ == recorded_status(tc.status),
        r.duration == match tc.duration_ms {
            Some(ms) => ns_of_ms(ms),
            None => 0,
        },
        r.file_path == tc.file_path,
        r.error == tc.error_message,
        r.retry_count == match tc.retry_attempt {
            Some(n) => Some(n as i32),
            None => None,
        },
        r.flaky == (if tc.status is Flaky {
            Some(true)
        } else {
            None
        }),
{
    let (status, flaky): (&str, Option<bool>) = match tc.status {
        TestStatus::Passed => (PASSED, None),
        TestStatus::Failed => (FAILED, None),
        TestStatus::TimedOut => (FAILED, None),
        TestStatus::Skipped => (SKIPPED, None),
        TestStatus::Flaky => (PASSED, Some(true)),
    };
    let duration: u64 = match tc.duration_ms {
        Some(ms) => {
            let ns: u128 = (ms as u128) * 1_000_000;
            if ns > u64::MAX as u128 {
                u64::MAX
            } else {
                ns as u64
            }
        },
        None => 0,
    };
    let retry_count: Option<i32> = match tc.retry_attempt {
        Some(n) => Some(
            #[verifier::truncate]
            (n as i32),
        ),
        None => None,
    };
    TestEvent {
        name: tc.full_name,
        status: status.to_owned(),
        duration,
        file_path: tc.file_path,
        error: tc.error_message,
        retry_count,
        flaky,
    }
}

// ---------------------------------------------------------------------------------------------
// Comparison
// ---------------------------------------------------------------------------------------------
/// A number as a fraction.
pub struct Fraction {
    pub num: i128,
    /// Positive.
    pub den: i128,
}

/// How a run compares with a baseline.
pub struct ComparisonResult {
    pub baseline_branch: String,
    pub baseline_run_id: String,
    /// Failed now, and did not fail before.
    pub new_failures: Vec<String>,
    /// Failed before, and passed now.
    pub fixed: Vec<String>,
    /// Failed both times.
    pub pre_existing_failures: Vec<String>,
    /// Change of the pass rate, in percentage points.
    pub pass_rate_delta: Fraction,
    /// Change of the duration, in nanoseconds.
    pub duration_delta: i128,
    pub total_delta: i64,
}

/// What counts of a status in a comparison.
#[derive(Clone, Copy, PartialEq, Eq, Structural, Debug)]
pub enum Verdict {
    Passed,
    Failed,
    /// Neither: the test was not run to its end.
    Neither,
}

/// What counts of a status in a comparison.
pub open spec fn verdict(status: Seq<char>) -> Verdict {
    if status == FAILED@ {
        Verdict::Failed
    } else if status == PASSED@ {
        Verdict::Passed
    } else {
        Verdict::Neither
    }
}

/// The verdict on the last of the first `n` entries of the test `name`; `None` where there is none.
pub open spec fn last_verdict(list: Seq<(String, String)>, name: Seq<char>, n: int) -> Option<
    Verdict,
>
    decreases n,
{
    if n <= 0 {
        None
    } else if list[n - 1].0@ == name {
        Some(verdict(list[n - 1].1@))
    } else {
        last_verdict(list, name, n - 1)
    }
}

/// Whether the test `name` is in a run, and the verdict on it there.
pub open spec fn outcome_in(list: Seq<(String, String)>, name: Seq<char>) -> Option<Verdict> {
    last_verdict(list, name, list.len() as int)
}

/// The test failed now, and did not fail before.
pub open spec fn is_new_failure(
    now: Seq<(String, String)>,
    before: Seq<(String, String)>,
    name: Seq<char>,
) -> bool {
    outcome_in(now, name) == Some(Verdict::Failed) && outcome_in(before, name) != Some(
        Verdict::Failed,
    )
}

/// The test failed before, and passed now.
pub open spec fn is_fixed(
    now: Seq<(String, String)>,
    before: Seq<(String, String)>,
    name: Seq<char>,
) -> bool {
    outcome_in(now, name) == Some(Verdict::Passed) && outcome_in(before, name) == Some(
        Verdict::Failed,
    )
}

/// The test failed both times.
pub open spec fn is_old_failure(
    now: Seq<(String, String)>,
    before: Seq<(String, String)>,
    name: Seq<char>,
) -> bool {
    outcome_in(now, name) == Some(Verdict::Failed) && outcome_in(before, name) == Some(
        Verdict::Failed,
    )
}

/// No test is in two of the groups of a comparison.
pub proof fn comparison_groups_are_disjoint(
    now: Seq<(String, String)>,
    before: Seq<(String, String)>,
    name: Seq<char>,
)
    ensures
        !(is_new_failure(now, before, name) && is_fixed(now, before, name)),
        !(is_new_failure(now, before, name) && is_old_failure(now, before, name)),
        !(is_fixed(now, before, name) && is_old_failure(now, before, name)),
{
}

/// `list` holds, in ascending order and once each, exactly the names that satisfy `p`.
pub open spec fn lists_exactly(list: Seq<Seq<char>>, p: spec_fn(Seq<char>) -> bool) -> bool {
    ascending(list) && forall|x: Seq<char>| #[trigger] listed(list, x) <==> p(x)
}

/// Passed tests, where there are any tests at all.
pub open spec fn rate_num(s: RunSummary) -> int {
    if s.total > 0 {
        s.passed as int
    } else {
        0
    }
}

/// All tests, and one where there are none.
pub open spec fn rate_den(s: RunSummary) -> int {
    if s.total > 0 {
        s.total as int
    } else {
        1
    }
}

/// `index` holds the last verdict on each test.
spec fn is_outcome_index(index: Map<Seq<char>, Verdict>, list: Seq<(String, String)>, n: int) -> bool {
    forall|name: Seq<char>|
        match #[trigger] last_verdict(list, name, n) {
            Some(b) => index.contains_key(name) && index[name] == b,
            None => !index.contains_key(name),
        }
}

fn index_outcomes(list: &Vec<(String, String)>) -> (index: StringHashMap<Verdict>)
    ensures
        is_outcome_index(index@, list@, list@.len() as int),
{
    let mut index: StringHashMap<Verdict> = StringHashMap::new();
    let mut n: usize = 0;
    while n < list.len()
        invariant
            0 <= n <= list@.len(),
            is_outcome_index(index@, list@, n as int),
        decreases list@.len() - n,
    {
        let status = list[n].1.as_str();
        let judged = if same(status, FAILED) {
            Verdict::Failed
        } else if same(status, PASSED) {
            Verdict::Passed
        } else {
            Verdict::Neither
        };
        index.insert(list[n].0.clone(), judged);
        proof {
            assert forall|name: Seq<char>|
                match #[trigger] last_verdict(list@, name, n + 1) {
                    Some(b) => index@.contains_key(name) && index@[name] == b,
                    None => !index@.contains_key(name),
                } by {
                let known = last_verdict(list@, name, n as int);
            }
        }
        n += 1;
    }
    index
}

proof fn outcome_means_entry(list: Seq<(String, String)>, name: Seq<char>, n: int)
    requires
        0 <= n <= list.len(),
    ensures
        last_verdict(list, name, n) is Some <==> exists|k: int|
            0 <= k < n && (#[trigger] list[k]).0@ == name,
    decreases n,
{
    if n > 0 {
        outcome_means_entry(list, name, n - 1);
        if list[n - 1].0@ == name {
            assert(0 <= n - 1 < n);
        }
    }
}

/// The latest run on a baseline branch.
pub struct BaselineRun {
    pub run_id: String,
    /// Names and statuses of its tests, in the order in which they were recorded.
    pub statuses: Vec<(String, String)>,
    pub summary: RunSummary,
}

/// `r` compares a run with `baseline`.
pub open spec fn compares(
    r: ComparisonResult,
    branch: Seq<char>,
    current: Seq<(String, String)>,
    summary: RunSummary,
    baseline: BaselineRun,
) -> bool {
    let before = baseline.statuses@;
    &&& r.baseline_branch@ == branch
    &&& r.baseline_run_id@ == baseline.run_id@
    &&& lists_exactly(
        r.new_failures.deep_view(),
        |x: Seq<char>| is_new_failure(current, before, x),
    )
    &&& lists_exactly(r.fixed.deep_view(), |x: Seq<char>| is_fixed(current, before, x))
    &&& lists_exactly(
        r.pre_existing_failures.deep_view(),
        |x: Seq<char>| is_old_failure(current, before, x),
    )
    &&& r.pass_rate_delta.den == rate_den(summary) * rate_den(baseline.summary)
    &&& r.pass_rate_delta.num == 100 * (rate_num(summary) * rate_den(baseline.summary) - rate_num(
        baseline.summary,
    ) * rate_den(summary))
    &&& r.pass_rate_delta.den > 0
    &&& r.duration_delta == summary.duration - baseline.summary.duration
    &&& r.total_delta == summary.total - baseline.summary.total
}

/// Compares a run with the latest run on a baseline branch; `None` where there is none. `current`
/// pairs the names of the run's tests with their statuses; where a name occurs twice, the last
/// status counts.
pub fn compare_run(
    baseline_branch: &str,
    current: &Vec<(String, String)>,
    current_summary: &RunSummary,
    baseline: &Option<BaselineRun>,
) -> (r: Option<ComparisonResult>)
    ensures
        match *baseline {
            Some(b) => r is Some && compares(
                r->0,
                baseline_branch@,
                current@,
                *current_summary,
                b,
            ),
            None => r is None,
        },
{
    match baseline {
        Some(b) => Some(
            compare_with(
                baseline_branch,
                b.run_id.as_str(),
                current,
                &b.statuses,
                current_summary,
                &b.summary,
            ),
        ),
        None => None,
    }
}

fn compare_with(
    baseline_branch: &str,
    baseline_run_id: &str,
    current: &Vec<(String, String)>,
    baseline: &Vec<(String, String)>,
    current_summary: &RunSummary,
    baseline_summary: &RunSummary,
) -> (r: ComparisonResult)
    ensures
        r.baseline_branch@ == baseline_branch@,
        r.baseline_run_id@ == baseline_run_id@,
        lists_exactly(
            r.new_failures.deep_view(),
            |x: Seq<char>| is_new_failure(current@, baseline@, x),
        ),
        lists_exactly(r.fixed.deep_view(), |x: Seq<char>| is_fixed(current@, baseline@, x)),
        lists_exactly(
            r.pre_existing_failures.deep_view(),
            |x: Seq<char>| is_old_failure(current@, baseline@, x),
        ),
        r.pass_rate_delta.den == rate_den(*current_summary) * rate_den(*baseline_summary),
        r.pass_rate_delta.num == 100 * (rate_num(*current_summary) * rate_den(*baseline_summary)
            - rate_num(*baseline_summary) * rate_den(*current_summary)),
        r.pass_rate_delta.den > 0,
        r.duration_delta == current_summary.duration - baseline_summary.duration,
        r.total_delta == current_summary.total - baseline_summary.total,
{
    let now = index_outcomes(current);
    let before = index_outcomes(baseline);
    let mut new_failures: Vec<String> = Vec::new();
    let mut fixed: Vec<String> = Vec::new();
    let mut old_failures: Vec<String> = Vec::new();
    let mut n: usize = 0;
    while n < current.len()
        invariant
            0 <= n <= current@.len(),
            is_outcome_index(now@, current@, current@.len() as int),
            is_outcome_index(before@, baseline@, baseline@.len() as int),
            ascending(new_failures.deep_view()),
            ascending(fixed.deep_view()),
            ascending(old_failures.deep_view()),
            forall|x: Seq<char>| #[trigger]
                listed(new_failures.deep_view(), x) <==> (seen_upto(current@, x, n as int)
                    && is_new_failure(current@, baseline@, x)),
            forall|x: Seq<char>| #[trigger]
                listed(fixed.deep_view(), x) <==> (seen_upto(current@, x, n as int) && is_fixed(
                    current@,
                    baseline@,
                    x,
                )),
            forall|x: Seq<char>| #[trigger]
                listed(old_failures.deep_view(), x) <==> (seen_upto(current@, x, n as int)
                    && is_old_failure(current@, baseline@, x)),
        decreases current@.len() - n,
    {
        let name = current[n].0.as_str();
        let ghost x0 = name@;
        let ghost a = outcome_in(current@, x0);
        let ghost b = outcome_in(baseline@, x0);
        proof {
            outcome_means_entry(current@, x0, current@.len() as int);
            assert(current@[n as int].0@ == x0);
            assert forall|x: Seq<char>| #[trigger] seen_upto(current@, x, n + 1) <==> (seen_upto(
                current@,
                x,
                n as int,
            ) || x == x0) by {
                if seen_upto(current@, x, n as int) {
                    let k = choose|k: int| 0 <= k < n && (#[trigger] current@[k]).0@ == x;
                    assert(0 <= k < n + 1);
                }
            }
        }
        let verdict_now = match now.get(name) {
            Some(v) => *v,
            None => Verdict::Neither,
        };
        let failed_before = match before.get(name) {
            Some(v) => *v == Verdict::Failed,
            None => false,
        };
        if verdict_now == Verdict::Failed {
            if failed_before {
                insert_text(&mut old_failures, name);
            } else {
                insert_text(&mut new_failures, name);
            }
        } else if verdict_now == Verdict::Passed && failed_before {
            insert_text(&mut fixed, name);
        }
        n += 1;
    }
    proof {
        assert forall|x: Seq<char>| seen_upto(current@, x, n as int) <==> outcome_in(current@, x)
            is Some by {
            outcome_means_entry(current@, x, current@.len() as int);
        }
    }
    let p1: i128 = if current_summary.total > 0 {
        current_summary.passed as i128
    } else {
        0
    };
    let t1: i128 = if current_summary.total > 0 {
        current_summary.total as i128
    } else {
        1
    };
    let p2: i128 = if baseline_summary.total > 0 {
        baseline_summary.passed as i128
    } else {
        0
    };
    let t2: i128 = if baseline_summary.total > 0 {
        baseline_summary.total as i128
    } else {
        1
    };
    proof {
        bounded_product(p1 as int, t2 as int);
        bounded_product(p2 as int, t1 as int);
        bounded_product(t1 as int, t2 as int);
        assert(t1 * t2 > 0) by (nonlinear_arith)
            requires
                t1 >= 1,
                t2 >= 1,
        ;
    }
    let rate = Fraction { num: 100 * (p1 * t2 - p2 * t1), den: t1 * t2 };
    let duration_delta: i128 = current_summary.duration as i128 - baseline_summary.duration as i128;
    let total_delta: i64 = current_summary.total as i64 - baseline_summary.total as i64;
    ComparisonResult {
        baseline_branch: baseline_branch.to_owned(),
        baseline_run_id: baseline_run_id.to_owned(),
        new_failures,
        fixed,
        pre_existing_failures: old_failures,
        pass_rate_delta: rate,
        duration_delta,
        total_delta,
    }
}

/// The test `name` is among the first `n` entries.
spec fn seen_upto(list: Seq<(String, String)>, name: Seq<char>, n: int) -> bool {
    exists|k: int| 0 <= k < n && (#[trigger] list[k]).0@ == name
}

proof fn bounded_product(a: int, b: int)
    requires
        -0x8000_0000 <= a <= 0x7fff_ffff,
        -0x8000_0000 <= b <= 0x7fff_ffff,
    ensures
        -0x4000_0000_0000_0000 <= a * b <= 0x4000_0000_0000_0000,
{
    assert(-0x4000_0000_0000_0000 <= a * b <= 0x4000_0000_0000_0000) by (nonlinear_arith)
        requires
            -0x8000_0000 <= a <= 0x7fff_ffff,
            -0x8000_0000 <= b <= 0x7fff_ffff,
    ;
}

// ---------------------------------------------------------------------------------------------
// Intelligence
// ---------------------------------------------------------------------------------------------
/// What the history says about a run.
pub struct TestIntelligence {
    pub flaky_tests: Vec<FlakyTestResult>,
    pub failure_clusters: Vec<FailureCluster>,
    pub duration_analysis: DurationAnalysis,
}

/// The executions of the run `run_id` among the first `n`.
pub open spec fn executions_of(h: Seq<HistoricalTest>, run_id: Seq<char>, n: int) -> Seq<int>
    decreases n,
{
    if n <= 0 {
        Seq::empty()
    } else if h[n - 1].run_id@ == run_id {
        executions_of(h, run_id, n - 1).push(n - 1)
    } else {
        executions_of(h, run_id, n - 1)
    }
}

/// `timed` holds the names, files and durations of the executions `list`.
pub open spec fn is_timing(timed: Seq<TimedTest>, h: Seq<HistoricalTest>, list: Seq<int>) -> bool {
    &&& timed.len() == list.len()
    &&& forall|k: int|
        0 <= k < timed.len() ==> (#[trigger] timed[k]).0@ == h[list[k]].name@ && timed[k].1@
            == h[list[k]].file_path@ && timed[k].2 == h[list[k]].duration
}

/// `r` analyzes the durations of the executions `list`, and lists at most `most` of the slowest.
pub open spec fn analyzes(
    r: DurationAnalysis,
    h: Seq<HistoricalTest>,
    list: Seq<int>,
    most: int,
) -> bool {
    exists|timed: Seq<TimedTest>, order: Seq<int>|
        is_timing(timed, h, list) && is_ranking(duration_keys(timed), order)
            && #[trigger] is_analysis(r, timed, order, most)
}

/// `out` reports the flaky tests of `h`.
pub open spec fn reports_flaky(out: Seq<FlakyTestResult>, h: Seq<HistoricalTest>) -> bool {
    exists|prints: Seq<String>|
        prints.len() == h.len() && (forall|i: int|
            0 <= i < h.len() ==> is_print(#[trigger] prints[i], h[i])) && #[trigger] is_flaky_report(
            out,
            h,
            prints,
        )
}

/// `out` clusters the failures `f`.
pub open spec fn clusters(out: Seq<FailureCluster>, f: Seq<FailedTest>) -> bool {
    exists|prints: Seq<Fingerprint>|
        prints.len() == f.len() && (forall|i: int|
            0 <= i < f.len() ==> is_fingerprint(#[trigger] prints[i], f[i]))
            && #[trigger] is_clustering(out, f, prints)
}

/// `r` is what the history `h` says about the run `run_id` with the failures `f`.
pub open spec fn is_intelligence(
    r: TestIntelligence,
    h: Seq<HistoricalTest>,
    f: Seq<FailedTest>,
    run_id: Seq<char>,
) -> bool {
    &&& reports_flaky(r.flaky_tests@, h)
    &&& clusters(r.failure_clusters@, f)
    &&& analyzes(
        r.duration_analysis,
        h,
        executions_of(h, run_id, h.len() as int),
        SLOWEST_LISTED as int,
    )
}

/// The timings of the executions of one run.
fn timings(history: &Vec<HistoricalTest>, run_id: &str) -> (timed: Vec<TimedTest>)
    ensures
        is_timing(
            timed@,
            history@,
            executions_of(history@, run_id@, history@.len() as int),
        ),
{
    let mut timed: Vec<TimedTest> = Vec::new();
    let mut n: usize = 0;
    while n < history.len()
        invariant
            0 <= n <= history@.len(),
            is_timing(timed@, history@, executions_of(history@, run_id@, n as int)),
        decreases history@.len() - n,
    {
        let t = &history[n];
        if same(t.run_id.as_str(), run_id) {
            timed.push((t.name.clone(), t.file_path.clone(), t.duration));
        }
        n += 1;
    }
    timed
}

/// What the history says about the run `run_id` with the given failures.
pub fn compute_intelligence(
    history: &Vec<HistoricalTest>,
    failures: &Vec<FailedTest>,
    run_id: &str,
) -> (r: TestIntelligence)
    requires
        history@.len() <= u32::MAX,
    ensures
        is_intelligence(r, history@, failures@, run_id@),
{
    let flaky_tests = detect_flaky_tests(history);
    let failure_clusters = cluster_failures(failures);
    let timed = timings(history, run_id);
    let duration_analysis = analyze_duration(&timed);
    proof {
        let order = choose|order: Seq<int>| #[trigger]
            is_ranking(duration_keys(timed@), order) && is_analysis(
                duration_analysis,
                timed@,
                order,
                SLOWEST_LISTED as int,
            );
        assert(is_analysis(duration_analysis, timed@, order, SLOWEST_LISTED as int));
    }
    TestIntelligence { flaky_tests, failure_clusters, duration_analysis }
}

/// What is known of a finished run.
pub struct RunReport {
    pub run_id: String,
    pub summary: RunSummary,
    pub started_at: String,
    pub finished_at: String,
    /// Missing where the history could not be read.
    pub intelligence: Option<TestIntelligence>,
    pub health: Option<HealthScore>,
}

/// How many flaky tests are known.
pub open spec fn flaky_known(intelligence: Option<TestIntelligence>) -> int {
    match intelligence {
        Some(i) => i.flaky_tests@.len() as int,
        None => 0,
    }
}

/// No more tests are flaky than were ever run.
pub proof fn flaky_tests_are_few(out: Seq<FlakyTestResult>, h: Seq<HistoricalTest>)
    requires
        reports_flaky(out, h),
    ensures
        out.len() <= h.len(),
{
    let prints = choose|prints: Seq<String>| #[trigger] is_flaky_report(out, h, prints);
    few_openings(h, prints, h.len() as int);
}

proof fn few_openings(h: Seq<HistoricalTest>, prints: Seq<String>, n: int)
    requires
        0 <= n,
    ensures
        flaky_firsts(h, prints, n).len() <= n,
    decreases n,
{
    if n > 0 {
        few_openings(h, prints, n - 1);
    }
}

/// Closes a run: what the history, where it could be read, says about it, and how healthy it is
/// compared with the run before it.
pub fn end_run(
    run_id: String,
    summary: RunSummary,
    started_at: String,
    finished_at: String,
    history: &Option<Vec<HistoricalTest>>,
    failures: &Vec<FailedTest>,
    previous_score: Option<Points>,
) -> (r: RunReport)
    requires
        *history is Some ==> (*history)->0@.len() <= u32::MAX,
    ensures
        r.run_id == run_id,
        r.summary == summary,
        r.started_at == started_at,
        r.finished_at == finished_at,
        match *history {
            Some(h) => r.intelligence is Some && is_intelligence(
                r.intelligence->0,
                h@,
                failures@,
                run_id@,
            ),
            None => r.intelligence is None,
        },
        r.health is Some && is_health(
            r.health->0,
            summary.total as int,
            summary.passed as int,
            flaky_known(r.intelligence),
            previous_score,
        ),
{
    let intelligence = match history {
        Some(h) => Some(compute_intelligence(h, failures, run_id.as_str())),
        None => None,
    };
    let flaky: u32 = match &intelligence {
        Some(i) => {
            proof {
                flaky_tests_are_few(i.flaky_tests@, (*history)->0@);
            }
            i.flaky_tests.len() as u32
        },
        None => 0,
    };
    let health = Some(calculate_health_score(summary.total, summary.passed, flaky, previous_score));
    RunReport { run_id, summary, started_at, finished_at, intelligence, health }
}

/// The health of the latest run, of whose tests so many are counted and have passed. Fails where
/// no run is recorded.
pub fn query_health(
    latest: Option<(i32, i32)>,
    history: &Vec<HistoricalTest>,
    previous_score: Option<Points>,
) -> (r: Result<HealthScore, GafferError>)
    requires
        history@.len() <= u32::MAX,
    ensures
        match (latest, r) {
            (Some(run), Ok(health)) => exists|flaky: Seq<FlakyTestResult>| #[trigger]
                reports_flaky(flaky, history@) && is_health(
                    health,
                    run.0 as int,
                    run.1 as int,
                    flaky.len() as int,
                    previous_score,
                ),
            (None, Err(e)) => e is NotFound && e->NotFound_0@
                == "No finished runs found. Run `gaffer test` first."@,
            _ => false,
        },
{
    match latest {
        Some(run) => {
            let flaky = detect_flaky_tests(history);
            assert(reports_flaky(flaky@, history@));
            proof {
                flaky_tests_are_few(flaky@, history@);
            }
            Ok(calculate_health_score(run.0, run.1, flaky.len() as u32, previous_score))
        },
        None => Err(
            GafferError::NotFound("No finished runs found. Run `gaffer test` first.".to_owned()),
        ),
    }
}

/// The run that a question is about: the given one, or else the latest.
pub fn target_run(run_id: &Option<String>, latest: &Option<String>) -> (r: Result<
    String,
    GafferError,
>)
    ensures
        match r {
            Ok(id) => if *run_id is Some {
                id@ == (*run_id)->0@
            } else {
                *latest is Some && id@ == (*latest)->0@
            },
            Err(e) => *run_id is None && *latest is None && e is NotFound && e->NotFound_0@
                == "No finished runs found"@,
        },
{
    match (run_id, latest) {
        (Some(id), _) => Ok(id.clone()),
        (None, Some(id)) => Ok(id.clone()),
        (None, None) => Err(GafferError::NotFound("No finished runs found".to_owned())),
    }
}

/// What the history, where it could be read, says about the run `run_id`.
pub fn get_test_intelligence(
    history: &Option<Vec<HistoricalTest>>,
    failures: &Vec<FailedTest>,
    run_id: &str,
) -> (r: Result<TestIntelligence, GafferError>)
    requires
        *history is Some ==> (*history)->0@.len() <= u32::MAX,
    ensures
        match (*history, r) {
            (Some(h), Ok(i)) => is_intelligence(i, h@, failures@, run_id@),
            (None, Err(e)) => e is NotFound && e->NotFound_0@ == "Failed to compute intelligence"@,
            _ => false,
        },
{
    match history {
        Some(h) => Ok(compute_intelligence(h, failures, run_id)),
        None => Err(GafferError::NotFound("Failed to compute intelligence".to_owned())),
    }
}

/// The durations of the latest run and its `limit` slowest tests. Fails where no run is recorded.
pub fn query_slowest(history: &Vec<HistoricalTest>, limit: u32) -> (r: Result<
    DurationAnalysis,
    GafferError,
>)
    ensures
        r is Err <==> history@.len() == 0,
        match r {
            Ok(a) => {
                &&& analyzes(a, history@, all_executions(history@), limit as int)
                &&& a.slowest_tests@.len() == (if limit < history@.len() {
                    limit as int
                } else {
                    history@.len() as int
                })
            },
            Err(e) => e is NotFound && e->NotFound_0@
                == "No finished runs found. Run `gaffer test` first."@,
        },
{
    if history.len() == 0 {
        return Err(
            GafferError::NotFound("No finished runs found. Run `gaffer test` first.".to_owned()),
        );
    }
    let mut timed: Vec<TimedTest> = Vec::new();
    let mut n: usize = 0;
    while n < history.len()
        invariant
            0 <= n <= history@.len(),
            timed@.len() == n,
            forall|k: int|
                0 <= k < n ==> (#[trigger] timed@[k]).0@ == history@[k].name@ && timed@[k].1@
                    == history@[k].file_path@ && timed@[k].2 == history@[k].duration,
        decreases history@.len() - n,
    {
        let t = &history[n];
        timed.push((t.name.clone(), t.file_path.clone(), t.duration));
        n += 1;
    }
    let a = analyze_slowest(&timed, limit as usize);
    proof {
        let order = choose|order: Seq<int>| #[trigger]
            is_ranking(duration_keys(timed@), order) && is_analysis(a, timed@, order, limit as int);
        assert(is_timing(timed@, history@, all_executions(history@)));
        assert(is_analysis(a, timed@, order, limit as int));
    }
    Ok(a)
}

/// All executions of a history.
pub open spec fn all_executions(h: Seq<HistoricalTest>) -> Seq<int> {
    Seq::new(h.len(), |k: int| k)
}

// ---------------------------------------------------------------------------------------------
// Coverage and the payload for the dashboard
// ---------------------------------------------------------------------------------------------
#[derive(Clone, Copy, PartialEq, Eq, Structural, Debug)]
pub struct CoverageMetrics {
    pub covered: i32,
    pub total: i32,
}

/// The coverage of a run.
pub struct CoverageSummary {
    pub lines: CoverageMetrics,
    pub branches: CoverageMetrics,
    pub functions: CoverageMetrics,
    pub format: String,
}

/// The coverage of one file.
pub struct FileCoverageEntry {
    pub path: String,
    pub lines: CoverageMetrics,
    pub branches: CoverageMetrics,
    pub functions: CoverageMetrics,
}

/// The coverage part of a payload.
pub struct IngestCoverage {
    pub format: String,
    pub lines: CoverageMetrics,
    pub branches: CoverageMetrics,
    pub functions: CoverageMetrics,
    pub files: Vec<FileCoverageEntry>,
}

/// What the dashboard is told about a run.
pub struct IngestPayload {
    pub run_id: String,
    pub framework: String,
    pub branch: Option<String>,
    pub commit_sha: Option<String>,
    pub ci_provider: Option<String>,
    pub started_at: String,
    pub finished_at: String,
    pub summary: RunSummary,
    pub tests: Vec<TestEvent>,
    pub coverage: Option<IngestCoverage>,
}

/// What is recorded of a run besides its tests.
pub struct RunRecord {
    pub metadata: RunMetadata,
    pub started_at: String,
    /// Missing while the run goes on.
    pub finished_at: Option<String>,
}

/// Puts the payload for a finished run together. A run that goes on has none.
pub fn build_ingest_payload(
    run_id: String,
    record: RunRecord,
    summary: RunSummary,
    tests: Vec<TestEvent>,
    coverage: Option<CoverageSummary>,
    files: Vec<FileCoverageEntry>,
) -> (r: Result<IngestPayload, String>)
    ensures
        r is Err <==> record.finished_at is None,
        match r {
            Ok(p) => {
                &&& p.run_id == run_id
                &&& p.framework == record.metadata.framework
                &&& p.branch == record.metadata.branch
                &&& p.commit_sha == record.metadata.commit
                &&& p.ci_provider == record.metadata.ci_provider
                &&& p.started_at == record.started_at
                &&& Some(p.finished_at) == record.finished_at
                &&& p.summary == summary
                &&& p.tests == tests
                &&& match coverage {
                    Some(c) => p.coverage == Some(
                        IngestCoverage {
                            format: c.format,
                            lines: c.lines,
                            branches: c.branches,
                            functions: c.functions,
                            files,
                        },
                    ),
                    None => p.coverage is None,
                }
            },
            Err(e) => e@ == "Run has no finished_at timestamp"@,
        },
{
    match record.finished_at {
        Some(finished_at) => {
            let coverage = match coverage {
                Some(c) => Some(
                    IngestCoverage {
                        format: c.format,
                        lines: c.lines,
                        branches: c.branches,
                        functions: c.functions,
                        files,
                    },
                ),
                None => None,
            };
            Ok(
                IngestPayload {
                    run_id,
                    framework: record.metadata.framework,
                    branch: record.metadata.branch,
                    commit_sha: record.metadata.commit,
                    ci_provider: record.metadata.ci_provider,
                    started_at: record.started_at,
                    finished_at,
                    summary,
                    tests,
                    coverage,
                },
            )
        },
        None => Err("Run has no finished_at timestamp".to_owned()),
    }
}

// ---------------------------------------------------------------------------------------------
// Sync
// ---------------------------------------------------------------------------------------------
/// How often an upload is attempted.
pub const MAX_ATTEMPTS: i32 = 5;

/// A payload that waits for the dashboard.
pub struct PendingUpload {
    pub id: i64,
    pub run_id: String,
    pub payload: String,
    pub attempts: i32,
}

/// How many payloads arrived.
#[derive(Clone, Copy, PartialEq, Eq, Structural, Debug)]
pub struct SyncResult {
    pub synced: u32,
    pub failed: u32,
}

/// What became of one payload.
pub enum Delivery {
    /// The dashboard answered with this status, and whether the record of that was kept.
    Answered { status: u16, recorded: bool },
    /// There was no answer.
    Unreachable,
}

/// Whether the dashboard took a payload.
pub open spec fn is_taken(status: u16) -> bool {
    status == 201 || status == 202
}

/// Whether the dashboard took a payload, so that it need not be sent again.
pub fn accepted(status: u16) -> (r: bool)
    ensures
        r == is_taken(status),
{
    status == 201 || status == 202
}

/// Whether a payload counts as synced: the dashboard took it, and that was recorded.
pub open spec fn is_synced(d: Delivery) -> bool {
    match d {
        Delivery::Answered { status, recorded } => is_taken(status) && recorded,
        Delivery::Unreachable => false,
    }
}

/// How many of the first `n` payloads are synced.
pub open spec fn synced_count(list: Seq<Delivery>, n: int) -> nat
    decreases n,
{
    if n <= 0 {
        0
    } else {
        synced_count(list, n - 1) + if is_synced(list[n - 1]) {
            1nat
        } else {
            0nat
        }
    }
}

/// Sums up what became of the payloads: each is either synced or failed. Where the payloads could
/// not be read, that is one failure.
pub fn sync_result(deliveries: &Option<Vec<Delivery>>) -> (r: SyncResult)
    requires
        match *deliveries {
            Some(list) => list@.len() <= u32::MAX,
            None => true,
        },
    ensures
        match *deliveries {
            Some(list) => r.synced == synced_count(list@, list@.len() as int) && r.synced + r.failed
                == list@.len(),
            None => r.synced == 0 && r.failed == 1,
        },
{
    match deliveries {
        Some(list) => {
            let mut synced: u32 = 0;
            let mut failed: u32 = 0;
            let mut n: usize = 0;
            while n < list.len()
                invariant
                    0 <= n <= list@.len() <= u32::MAX,
                    synced == synced_count(list@, n as int),
                    synced + failed == n,
                decreases list@.len() - n,
            {
                let good = match &list[n] {
                    Delivery::Answered { status, recorded } => accepted(*status) && *recorded,
                    Delivery::Unreachable => false,
                };
                if good {
                    synced = synced + 1;
                } else {
                    failed = failed + 1;
                }
                n += 1;
            }
            SyncResult { synced, failed }
        },
        None => SyncResult { synced: 0, failed: 1 },
    }
}

/// The address that payloads go to.
pub open spec fn ingest_address(api_url: Option<String>) -> Seq<char> {
    let base = match api_url {
        Some(url) => url@,
        None => DEFAULT_API_URL@,
    };
    trim_end_by(base, |c: char| c == '/') + "/api/v1/ingest"@
}

/// The address that payloads go to.
pub fn ingest_url(api_url: &Option<String>) -> (r: String)
    ensures
        r@ == ingest_address(*api_url),
{
    let base = match api_url {
        Some(url) => url.as_str(),
        None => DEFAULT_API_URL,
    };
    let trimmed = text_of(&trim_end_of(&chars_of(base), '/'));
    concat2(trimmed.as_str(), "/api/v1/ingest")
}

} // verus!
