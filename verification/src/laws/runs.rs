//! What is said of runs and of their comparison, over the tests themselves.
use vstd::prelude::*;

use crate::commands::classified;
use crate::run::{
    compares, count_status, is_synced, last_verdict, ns_of_ms, recorded_status, synced_count,
    verdict, BaselineRun, ComparisonResult, Delivery, RunSummary, TestEvent, TestStatus,
};
use crate::status::{FAILED, PASSED};
use crate::text::listed;

verus! {

/// The last entry of the test `name` in `list` is number `i`.
pub open spec fn is_last(list: Seq<(String, String)>, name: Seq<char>, i: int) -> bool {
    &&& 0 <= i < list.len()
    &&& list[i].0@ == name
    &&& forall|j: int| i < j < list.len() ==> (#[trigger] list[j]).0@ != name
}

/// The test `name` is not in `list`.
pub open spec fn is_missing(list: Seq<(String, String)>, name: Seq<char>) -> bool {
    forall|j: int| 0 <= j < list.len() ==> (#[trigger] list[j]).0@ != name
}

proof fn last_entry_counts(list: Seq<(String, String)>, name: Seq<char>, i: int, n: int)
    requires
        0 <= i < n <= list.len(),
        list[i].0@ == name,
        forall|j: int| i < j < n ==> (#[trigger] list[j]).0@ != name,
    ensures
        last_verdict(list, name, n) == Some(verdict(list[i].1@)),
    decreases n,
{
    if i < n - 1 {
        assert(list[n - 1].0@ != name);
        last_entry_counts(list, name, i, n - 1);
    }
}

proof fn missing_has_no_verdict(list: Seq<(String, String)>, name: Seq<char>, n: int)
    requires
        0 <= n <= list.len(),
        forall|j: int| 0 <= j < n ==> (#[trigger] list[j]).0@ != name,
    ensures
        last_verdict(list, name, n) is None,
    decreases n,
{
    if n > 0 {
        assert(list[n - 1].0@ != name);
        missing_has_no_verdict(list, name, n - 1);
    }
}

proof fn statuses_differ()
    ensures
        "passed"@ != "failed"@,
{
    reveal_strlit("passed");
    reveal_strlit("failed");
    assert("passed"@[0] != "failed"@[0]);
}

/// A test that is in both runs, with its last entries `i` and `j`, is a new failure where it failed
/// now and not before, fixed where it failed before and passed now, an old failure where it failed
/// both times, and else in no group.
pub proof fn comparisons_group_by_last_status(
    r: ComparisonResult,
    branch: Seq<char>,
    current: Seq<(String, String)>,
    summary: RunSummary,
    baseline: BaselineRun,
    name: Seq<char>,
    i: int,
    j: int,
)
    requires
        compares(r, branch, current, summary, baseline),
        is_last(current, name, i),
        is_last(baseline.statuses@, name, j),
    ensures
        ({
            let now = current[i].1@;
            let before = baseline.statuses@[j].1@;
            &&& listed(r.new_failures.deep_view(), name) <==> now == "failed"@ && before
                != "failed"@
            &&& listed(r.fixed.deep_view(), name) <==> now == "passed"@ && before == "failed"@
            &&& listed(r.pre_existing_failures.deep_view(), name) <==> now == "failed"@ && before
                == "failed"@
        }),
{
    statuses_differ();
    last_entry_counts(current, name, i, current.len() as int);
    last_entry_counts(baseline.statuses@, name, j, baseline.statuses@.len() as int);
}

/// A test that the baseline does not have is a new failure where it failed, and else in no group.
pub proof fn unknown_tests_are_new(
    r: ComparisonResult,
    branch: Seq<char>,
    current: Seq<(String, String)>,
    summary: RunSummary,
    baseline: BaselineRun,
    name: Seq<char>,
    i: int,
)
    requires
        compares(r, branch, current, summary, baseline),
        is_last(current, name, i),
        is_missing(baseline.statuses@, name),
    ensures
        listed(r.new_failures.deep_view(), name) <==> current[i].1@ == "failed"@,
        !listed(r.fixed.deep_view(), name),
        !listed(r.pre_existing_failures.deep_view(), name),
{
    statuses_differ();
    last_entry_counts(current, name, i, current.len() as int);
    missing_has_no_verdict(baseline.statuses@, name, baseline.statuses@.len() as int);
}

/// A test that is no longer there is in no group.
pub proof fn removed_tests_are_in_no_group(
    r: ComparisonResult,
    branch: Seq<char>,
    current: Seq<(String, String)>,
    summary: RunSummary,
    baseline: BaselineRun,
    name: Seq<char>,
)
    requires
        compares(r, branch, current, summary, baseline),
        is_missing(current, name),
    ensures
        !listed(r.new_failures.deep_view(), name),
        !listed(r.fixed.deep_view(), name),
        !listed(r.pre_existing_failures.deep_view(), name),
{
    missing_has_no_verdict(current, name, current.len() as int);
}

/// The pass rates are compared in percentage points, and the rest by difference.
pub proof fn comparisons_take_differences(
    r: ComparisonResult,
    branch: Seq<char>,
    current: Seq<(String, String)>,
    now: RunSummary,
    baseline: BaselineRun,
)
    requires
        compares(r, branch, current, now, baseline),
        now.total > 0,
        baseline.summary.total > 0,
    ensures
        r.pass_rate_delta.den > 0,
        r.pass_rate_delta.num * (now.total * baseline.summary.total) == 100 * (now.passed
            * baseline.summary.total - baseline.summary.passed * now.total) * r.pass_rate_delta.den,
        r.duration_delta == now.duration - baseline.summary.duration,
        r.total_delta == now.total - baseline.summary.total,
        r.baseline_branch@ == branch,
        r.baseline_run_id@ == baseline.run_id@,
{
    let t = now.total as int;
    let u = baseline.summary.total as int;
    let p = now.passed as int;
    let q = baseline.summary.passed as int;
    assert(r.pass_rate_delta.den == t * u);
    assert(r.pass_rate_delta.num == 100 * (p * u - q * t));
    let d = r.pass_rate_delta.den as int;
    let n = r.pass_rate_delta.num as int;
    assert(n * (t * u) == 100 * (p * u - q * t) * d) by (nonlinear_arith)
        requires
            n == 100 * (p * u - q * t),
            d == t * u,
    ;
}

// ---------------------------------------------------------------------------------------------
// Counting
// ---------------------------------------------------------------------------------------------
/// The tests with the status `s`.
pub open spec fn with_status(tests: Seq<TestEvent>, s: Seq<char>) -> Set<int> {
    Set::new(|k: int| 0 <= k < tests.len() && tests[k].status@ == s)
}

proof fn statuses_are_counted(tests: Seq<TestEvent>, s: Seq<char>, n: int)
    requires
        0 <= n <= tests.len(),
    ensures
        with_status(tests.take(n), s).finite(),
        with_status(tests.take(n), s).len() == count_status(tests, s, n),
    decreases n,
{
    let now = with_status(tests.take(n), s);
    if n == 0 {
        assert(now =~= Set::empty());
    } else {
        statuses_are_counted(tests, s, n - 1);
        let before = with_status(tests.take(n - 1), s);
        if tests[n - 1].status@ == s {
            assert(now =~= before.insert(n - 1));
        } else {
            assert(now =~= before);
        }
    }
}

/// A summary counts the tests that passed and those that failed.
pub proof fn summaries_count_tests(tests: Seq<TestEvent>)
    ensures
        count_status(tests, PASSED@, tests.len() as int) == with_status(tests, "passed"@).len(),
        count_status(tests, FAILED@, tests.len() as int) == with_status(tests, "failed"@).len(),
{
    statuses_are_counted(tests, "passed"@, tests.len() as int);
    statuses_are_counted(tests, "failed"@, tests.len() as int);
    assert(tests.take(tests.len() as int) =~= tests);
}

/// The payloads that the dashboard took with 201 or 202, where that was recorded.
pub open spec fn arrived(list: Seq<Delivery>) -> Set<int> {
    Set::new(
        |k: int|
            0 <= k < list.len() && match list[k] {
                Delivery::Answered { status, recorded } => (status == 201 || status == 202)
                    && recorded,
                Delivery::Unreachable => false,
            },
    )
}

proof fn arrivals_are_counted(list: Seq<Delivery>, n: int)
    requires
        0 <= n <= list.len(),
    ensures
        arrived(list.take(n)).finite(),
        arrived(list.take(n)).len() == synced_count(list, n),
    decreases n,
{
    let now = arrived(list.take(n));
    if n == 0 {
        assert(now =~= Set::empty());
    } else {
        arrivals_are_counted(list, n - 1);
        let before = arrived(list.take(n - 1));
        if is_synced(list[n - 1]) {
            assert(now =~= before.insert(n - 1));
        } else {
            assert(now =~= before);
        }
    }
}

/// As many payloads are synced as arrived.
pub proof fn synced_payloads_arrived(list: Seq<Delivery>)
    ensures
        synced_count(list, list.len() as int) == arrived(list).len(),
{
    arrivals_are_counted(list, list.len() as int);
    assert(list.take(list.len() as int) =~= list);
}

// ---------------------------------------------------------------------------------------------
// Reported tests
// ---------------------------------------------------------------------------------------------
/// A test that ran out of time failed, and one that passed in the end passed.
pub proof fn outcomes_are_recorded()
    ensures
        recorded_status(TestStatus::Passed) == "passed"@,
        recorded_status(TestStatus::Failed) == "failed"@,
        recorded_status(TestStatus::TimedOut) == "failed"@,
        recorded_status(TestStatus::Skipped) == "skipped"@,
        recorded_status(TestStatus::Flaky) == "passed"@,
{
}

/// A millisecond has a million nanoseconds.
pub proof fn durations_are_converted(ms: u64)
    requires
        ms <= 18_446_744_073_709,
    ensures
        ns_of_ms(ms) == ms * 1_000_000,
{
}

/// A failure on the baseline is old, whether or not the test is flaky; any other failure of a flaky
/// test is flaky; the rest is new, or unknown where there is no baseline.
pub proof fn failures_are_classified(
    name: Seq<char>,
    flaky: Seq<Seq<char>>,
    old: Seq<Seq<char>>,
)
    ensures
        listed(old, name) ==> classified(name, flaky, Some(old)) is PreExisting,
        !listed(old, name) && listed(flaky, name) ==> classified(name, flaky, Some(old)) is Flaky,
        !listed(old, name) && !listed(flaky, name) ==> classified(name, flaky, Some(old)) is New,
        listed(flaky, name) ==> classified(name, flaky, None) is Flaky,
        !listed(flaky, name) ==> classified(name, flaky, None) is Unknown,
{
}

} // verus!
