//! Which tests are reported as flaky, and what is reported of them, counted over the history.
use vstd::prelude::*;
use vstd::arithmetic::div_mod::lemma_fundamental_div_mod;

use crate::cluster::normalized;
use crate::flaky::{
    composite, failed_count, failure_patterns, flaky_firsts, flaky_scores, flips, is_flaky,
    is_flaky_report, is_print, is_report, last_flip, latest_file, opens_flaky, runs_of, score_of,
    variance_quarters, FlakyTestResult, HistoricalTest,
};
use crate::ranking::{is_ranking, precedes, ranking_is_complete};
use crate::run::reports_flaky;
use crate::text::opt_text;

verus! {

/// `r` lists the executions of the test `name` that passed or failed, each once and in order.
pub open spec fn are_executions(h: Seq<HistoricalTest>, name: Seq<char>, r: Seq<int>) -> bool {
    &&& forall|a: int, b: int| 0 <= a < b < r.len() ==> #[trigger] r[a] < #[trigger] r[b]
    &&& forall|k: int| 0 <= k < r.len() ==> 0 <= #[trigger] r[k] < h.len()
    &&& forall|k: int| 0 <= k < r.len() ==> h[#[trigger] r[k]].name@ == name
    &&& forall|k: int|
        0 <= k < r.len() ==> h[#[trigger] r[k]].status@ == "passed"@ || h[r[k]].status@ == "failed"@
    &&& forall|i: int|
        0 <= i < h.len() && (#[trigger] h[i]).name@ == name && (h[i].status@ == "passed"@
            || h[i].status@ == "failed"@) ==> r.contains(i)
}

/// The executions in `r`, by their places in it, that ended otherwise than the one before.
pub open spec fn changes(h: Seq<HistoricalTest>, r: Seq<int>) -> Set<int> {
    Set::new(|k: int| 0 < k < r.len() && h[r[k]].status@ != h[r[k - 1]].status@)
}

/// The executions in `r`, by their places in it, that failed.
pub open spec fn failures(h: Seq<HistoricalTest>, r: Seq<int>) -> Set<int> {
    Set::new(|k: int| 0 <= k < r.len() && h[r[k]].status@ == "failed"@)
}

/// The nonempty fingerprints of the messages with which executions in `r` failed.
pub open spec fn messages(h: Seq<HistoricalTest>, r: Seq<int>) -> Set<Seq<char>> {
    Set::new(
        |p: Seq<char>|
            p.len() > 0 && exists|k: int|
                0 <= k < r.len() && h[#[trigger] r[k]].status@ == "failed"@
                    && h[r[k]].error_message is Some && normalized(h[r[k]].error_message->0@) == p,
    )
}

/// Whether one of the results is of the test `name`.
pub open spec fn is_reported(out: Seq<FlakyTestResult>, name: Seq<char>) -> bool {
    exists|k: int| 0 <= k < out.len() && (#[trigger] out[k]).test_name@ == name
}

// ---------------------------------------------------------------------------------------------
// Lists and sets
// ---------------------------------------------------------------------------------------------
proof fn runs_are_executions(h: Seq<HistoricalTest>, name: Seq<char>, n: int)
    requires
        0 <= n <= h.len(),
    ensures
        are_executions(h.take(n), name, runs_of(h, name, n)),
    decreases n,
{
    let r = runs_of(h, name, n);
    if n > 0 {
        runs_are_executions(h, name, n - 1);
        let q = runs_of(h, name, n - 1);
        let before = h.take(n - 1);
        let now = h.take(n);
        assert forall|k: int| 0 <= k < r.len() implies 0 <= #[trigger] r[k] < n && now[r[k]].name@
            == name && (now[r[k]].status@ == "passed"@ || now[r[k]].status@ == "failed"@) by {
            if k < q.len() {
                assert(r[k] == q[k]);
                assert(before[q[k]] == now[q[k]]);
            }
        }
        assert forall|a: int, b: int| 0 <= a < b < r.len() implies #[trigger] r[a]
            < #[trigger] r[b] by {
            assert(r[a] == q[a]);
            assert(0 <= q[a] < n - 1);
            if b < q.len() {
                assert(r[b] == q[b]);
            }
        }
        assert forall|i: int|
            0 <= i < n && (#[trigger] now[i]).name@ == name && (now[i].status@ == "passed"@
                || now[i].status@ == "failed"@) implies r.contains(i) by {
            if i < n - 1 {
                assert(before[i] == now[i]);
                assert(q.contains(i));
                let k = choose|k: int| 0 <= k < q.len() && q[k] == i;
                assert(r[k] == i);
            } else {
                assert(r[q.len() as int] == i);
            }
        }
    }
}

/// Two lists of the same executions are the same.
proof fn executions_are_unique(
    h: Seq<HistoricalTest>,
    name: Seq<char>,
    a: Seq<int>,
    b: Seq<int>,
    n: int,
)
    requires
        are_executions(h, name, a),
        are_executions(h, name, b),
        0 <= n <= a.len(),
        n <= b.len(),
    ensures
        forall|k: int| 0 <= k < n ==> a[k] == b[k],
    decreases n,
{
    if n > 0 {
        executions_are_unique(h, name, a, b, n - 1);
        let k = n - 1;
        if a[k] != b[k] {
            assert(h[a[k]].name@ == name && h[b[k]].name@ == name);
            assert(b.contains(a[k]));
            assert(a.contains(b[k]));
            let i = choose|i: int| 0 <= i < b.len() && b[i] == a[k];
            let j = choose|j: int| 0 <= j < a.len() && a[j] == b[k];
            if i < k {
                assert(a[i] == a[k]);
            }
            if j < k {
                assert(b[j] == b[k]);
            }
            assert(a[k] < a[j] && b[k] < b[i]);
        }
    }
}

proof fn executions_are_runs(h: Seq<HistoricalTest>, name: Seq<char>, r: Seq<int>)
    requires
        are_executions(h, name, r),
    ensures
        r == runs_of(h, name, h.len() as int),
{
    let n = h.len() as int;
    let q = runs_of(h, name, n);
    runs_are_executions(h, name, n);
    assert(h.take(n) =~= h);
    if r.len() < q.len() {
        executions_are_unique(h, name, r, q, r.len() as int);
        let k = r.len() as int;
        assert(h[q[k]].name@ == name);
        assert(r.contains(q[k]));
        let i = choose|i: int| 0 <= i < r.len() && r[i] == q[k];
        assert(q[i] == q[k] && q[i] < q[k]);
    } else if q.len() < r.len() {
        executions_are_unique(h, name, r, q, q.len() as int);
        let k = q.len() as int;
        assert(h[r[k]].name@ == name);
        assert(q.contains(r[k]));
        let i = choose|i: int| 0 <= i < q.len() && q[i] == r[k];
        assert(r[i] == r[k] && r[i] < r[k]);
    } else {
        executions_are_unique(h, name, r, q, r.len() as int);
    }
    assert(r =~= q);
}

proof fn flips_are_changes(h: Seq<HistoricalTest>, r: Seq<int>)
    ensures
        changes(h, r).finite(),
        changes(h, r).len() == flips(h, r),
    decreases r.len(),
{
    if r.len() < 2 {
        assert(changes(h, r) =~= Set::empty());
    } else {
        let q = r.drop_last();
        flips_are_changes(h, q);
        let n = r.len() - 1;
        if h[r.last()].status@ != h[r[r.len() - 2]].status@ {
            assert(changes(h, r) =~= changes(h, q).insert(n));
        } else {
            assert(changes(h, r) =~= changes(h, q));
        }
    }
}

proof fn failed_are_failures(h: Seq<HistoricalTest>, r: Seq<int>)
    ensures
        failures(h, r).finite(),
        failures(h, r).len() == failed_count(h, r),
    decreases r.len(),
{
    if r.len() == 0 {
        assert(failures(h, r) =~= Set::empty());
    } else {
        let q = r.drop_last();
        failed_are_failures(h, q);
        let n = r.len() - 1;
        if h[r.last()].status@ == "failed"@ {
            assert(failures(h, r) =~= failures(h, q).insert(n));
        } else {
            assert(failures(h, r) =~= failures(h, q));
        }
    }
}

/// `prints` are the fingerprints of the messages in `h`.
spec fn are_prints(prints: Seq<String>, h: Seq<HistoricalTest>) -> bool {
    prints.len() == h.len() && forall|i: int|
        0 <= i < h.len() ==> is_print(#[trigger] prints[i], h[i])
}

proof fn patterns_are_messages(h: Seq<HistoricalTest>, prints: Seq<String>, r: Seq<int>)
    requires
        are_prints(prints, h),
        forall|k: int| 0 <= k < r.len() ==> 0 <= #[trigger] r[k] < h.len(),
    ensures
        messages(h, r) == failure_patterns(h, prints, r),
    decreases r.len(),
{
    if r.len() == 0 {
        assert(messages(h, r) =~= Set::empty());
    } else {
        let q = r.drop_last();
        assert forall|k: int| 0 <= k < q.len() implies 0 <= #[trigger] q[k] < h.len() by {
            assert(q[k] == r[k]);
        }
        patterns_are_messages(h, prints, q);
        let i = r.last();
        assert(0 <= r[r.len() - 1] < h.len());
        assert(is_print(prints[i], h[i]));
        let rest = messages(h, q);
        let all = failure_patterns(h, prints, r);
        assert forall|p: Seq<char>| messages(h, r).contains(p) <==> all.contains(p) by {
            if messages(h, r).contains(p) {
                let k = choose|k: int|
                    0 <= k < r.len() && h[#[trigger] r[k]].status@ == "failed"@
                        && h[r[k]].error_message is Some && normalized(h[r[k]].error_message->0@) == p;
                if k < q.len() {
                    assert(q[k] == r[k]);
                    assert(rest.contains(p));
                }
            }
            if rest.contains(p) {
                let k = choose|k: int|
                    0 <= k < q.len() && h[#[trigger] q[k]].status@ == "failed"@
                        && h[q[k]].error_message is Some && normalized(h[q[k]].error_message->0@) == p;
                assert(r[k] == q[k]);
            }
            if all.contains(p) && !rest.contains(p) {
                assert(p == prints[i]@ && p.len() > 0);
                assert(h[r[r.len() - 1]].error_message is Some);
            }
        }
        assert(messages(h, r) =~= all);
    }
}

// ---------------------------------------------------------------------------------------------
// Who is reported
// ---------------------------------------------------------------------------------------------
proof fn firsts_open(h: Seq<HistoricalTest>, prints: Seq<String>, n: int)
    requires
        0 <= n <= h.len(),
    ensures
        forall|k: int|
            0 <= k < flaky_firsts(h, prints, n).len() ==> 0 <= #[trigger] flaky_firsts(
                h,
                prints,
                n,
            )[k] < n && opens_flaky(h, prints, flaky_firsts(h, prints, n)[k]),
        forall|a: int, b: int|
            0 <= a < b < flaky_firsts(h, prints, n).len() ==> #[trigger] flaky_firsts(
                h,
                prints,
                n,
            )[a] < #[trigger] flaky_firsts(h, prints, n)[b],
        forall|i: int|
            0 <= i < n && #[trigger] opens_flaky(h, prints, i) ==> flaky_firsts(
                h,
                prints,
                n,
            ).contains(i),
    decreases n,
{
    if n > 0 {
        firsts_open(h, prints, n - 1);
        let q = flaky_firsts(h, prints, n - 1);
        let l = flaky_firsts(h, prints, n);
        assert forall|k: int| 0 <= k < l.len() implies 0 <= #[trigger] l[k] < n && opens_flaky(
            h,
            prints,
            l[k],
        ) by {
            if k < q.len() {
                assert(l[k] == q[k]);
            }
        }
        assert forall|a: int, b: int| 0 <= a < b < l.len() implies #[trigger] l[a]
            < #[trigger] l[b] by {
            assert(l[a] == q[a]);
            if b < q.len() {
                assert(l[b] == q[b]);
            }
        }
        assert forall|i: int| 0 <= i < n && #[trigger] opens_flaky(h, prints, i) implies l.contains(
            i,
        ) by {
            if i < n - 1 {
                let k = choose|k: int| 0 <= k < q.len() && q[k] == i;
                assert(l[k] == i);
            } else {
                assert(l[q.len() as int] == i);
            }
        }
    }
}

/// The first execution of a test has none before it.
proof fn first_has_none_before(h: Seq<HistoricalTest>, name: Seq<char>, r: Seq<int>)
    requires
        are_executions(h, name, r),
        r.len() > 0,
    ensures
        runs_of(h, name, r[0]).len() == 0,
{
    let i = r[0];
    runs_are_executions(h, name, i);
    let q = runs_of(h, name, i);
    if q.len() > 0 {
        let j = q[0];
        assert(0 <= q[0] < i);
        assert(h.take(i)[q[0]].name@ == name);
        assert(h.take(i)[j] == h[j]);
        assert(r.contains(j));
        let k = choose|k: int| 0 <= k < r.len() && r[k] == j;
        if k > 0 {
            assert(r[0] < r[k]);
        }
    }
}

proof fn reported_iff_flaky(
    out: Seq<FlakyTestResult>,
    h: Seq<HistoricalTest>,
    prints: Seq<String>,
    name: Seq<char>,
    r: Seq<int>,
)
    requires
        is_flaky_report(out, h, prints),
        are_executions(h, name, r),
    ensures
        is_reported(out, name) <==> is_flaky(h, prints, r),
{
    let n = h.len() as int;
    let l = flaky_firsts(h, prints, n);
    let scores = flaky_scores(h, prints);
    let order = choose|order: Seq<int>| #[trigger]
        is_ranking(scores, order) && out.len() == l.len() && forall|k: int|
            0 <= k < l.len() ==> is_report(#[trigger] out[k], h, prints, h[l[order[k]]].name@);
    executions_are_runs(h, name, r);
    firsts_open(h, prints, n);
    if is_reported(out, name) {
        let k = choose|k: int| 0 <= k < out.len() && (#[trigger] out[k]).test_name@ == name;
        assert(is_report(out[k], h, prints, h[l[order[k]]].name@));
        assert(opens_flaky(h, prints, l[order[k]]));
    }
    if is_flaky(h, prints, r) {
        first_has_none_before(h, name, r);
        let i = r[0];
        assert(h[r[0]].name@ == name);
        assert(opens_flaky(h, prints, i));
        assert(l.contains(i));
        let j = choose|j: int| 0 <= j < l.len() && l[j] == i;
        ranking_is_complete(scores, order, j);
        let k = choose|k: int| 0 <= k < order.len() && order[k] == j;
        assert(is_report(out[k], h, prints, h[l[order[k]]].name@));
        assert(out[k].test_name@ == name);
    }
}

/// A test is reported where, and only where, at least five of its executions passed or failed, and
/// either the outcome changed from one to the next in at least a tenth of the chances, or it failed
/// with two distinct messages or more.
pub proof fn flaky_tests_are_reported(
    out: Seq<FlakyTestResult>,
    h: Seq<HistoricalTest>,
    name: Seq<char>,
    r: Seq<int>,
)
    requires
        reports_flaky(out, h),
        are_executions(h, name, r),
    ensures
        r.len() >= 5 && 10 * changes(h, r).len() >= r.len() - 1 ==> is_reported(out, name),
        r.len() >= 5 && messages(h, r).len() >= 2 ==> is_reported(out, name),
        r.len() < 5 ==> !is_reported(out, name),
        10 * changes(h, r).len() < r.len() - 1 && messages(h, r).len() < 2 ==> !is_reported(
            out,
            name,
        ),
{
    let prints = choose|prints: Seq<String>|
        prints.len() == h.len() && (forall|i: int|
            0 <= i < h.len() ==> is_print(#[trigger] prints[i], h[i])) && #[trigger] is_flaky_report(
            out,
            h,
            prints,
        );
    reported_iff_flaky(out, h, prints, name, r);
    flips_are_changes(h, r);
    patterns_are_messages(h, prints, r);
}

/// What is reported is of a test in the history, and no test is reported twice. Higher scores come
/// first.
pub proof fn reports_are_of_tests(out: Seq<FlakyTestResult>, h: Seq<HistoricalTest>)
    requires
        reports_flaky(out, h),
    ensures
        forall|k: int|
            0 <= k < out.len() ==> exists|i: int|
                0 <= i < h.len() && (#[trigger] h[i]).name@ == (#[trigger] out[k]).test_name@,
        forall|a: int, b: int|
            0 <= a < b < out.len() ==> (#[trigger] out[a]).test_name@ != (
            #[trigger] out[b]).test_name@ && out[a].composite_score >= out[b].composite_score,
{
    let n = h.len() as int;
    let prints = choose|prints: Seq<String>|
        prints.len() == h.len() && (forall|i: int|
            0 <= i < h.len() ==> is_print(#[trigger] prints[i], h[i])) && #[trigger] is_flaky_report(
            out,
            h,
            prints,
        );
    let l = flaky_firsts(h, prints, n);
    let scores = flaky_scores(h, prints);
    let order = choose|order: Seq<int>| #[trigger]
        is_ranking(scores, order) && out.len() == l.len() && forall|k: int|
            0 <= k < l.len() ==> is_report(#[trigger] out[k], h, prints, h[l[order[k]]].name@);
    firsts_open(h, prints, n);
    assert forall|k: int| 0 <= k < out.len() implies exists|i: int|
        0 <= i < h.len() && (#[trigger] h[i]).name@ == (#[trigger] out[k]).test_name@ by {
        assert(is_report(out[k], h, prints, h[l[order[k]]].name@));
        assert(0 <= l[order[k]] < n);
        assert(h[l[order[k]]].name@ == out[k].test_name@);
    }
    assert forall|a: int, b: int| 0 <= a < b < out.len() implies (#[trigger] out[a]).test_name@ != (
    #[trigger] out[b]).test_name@ && out[a].composite_score >= out[b].composite_score by {
        assert(is_report(out[a], h, prints, h[l[order[a]]].name@));
        assert(is_report(out[b], h, prints, h[l[order[b]]].name@));
        assert(precedes(scores, order[a], order[b]));
        let i = l[order[a]];
        let j = l[order[b]];
        assert(opens_flaky(h, prints, i) && opens_flaky(h, prints, j));
        assert(i != j) by {
            if order[a] < order[b] {
                assert(l[order[a]] < l[order[b]]);
            } else {
                assert(l[order[b]] < l[order[a]]);
            }
        }
        if h[i].name@ == h[j].name@ {
            if i < j {
                earlier_run_counts(h, h[j].name@, i, j);
            } else {
                earlier_run_counts(h, h[i].name@, j, i);
            }
        }
        scores_fit(h, prints, runs_of(h, h[i].name@, n));
        scores_fit(h, prints, runs_of(h, h[j].name@, n));
    }
}

proof fn earlier_run_counts(h: Seq<HistoricalTest>, name: Seq<char>, i: int, n: int)
    requires
        0 <= i < n <= h.len(),
        crate::flaky::is_decided(h[i]),
        h[i].name@ == name,
    ensures
        runs_of(h, name, n).len() > 0,
    decreases n,
{
    if i < n - 1 {
        earlier_run_counts(h, name, i, n - 1);
    }
}

proof fn scores_fit(h: Seq<HistoricalTest>, prints: Seq<String>, r: Seq<int>)
    requires
        r.len() >= 2,
    ensures
        score_of(h, prints, r) <= 100,
{
    crate::flaky::counts_bounded(h, prints, r);
    crate::flaky::composite_bounded(
        r.len(),
        flips(h, r),
        failed_count(h, r),
        failure_patterns(h, prints, r).len(),
    );
}

// ---------------------------------------------------------------------------------------------
// What is reported
// ---------------------------------------------------------------------------------------------
/// A result counts the executions of its test and the changes of its outcome.
pub proof fn reports_count_the_executions(
    out: Seq<FlakyTestResult>,
    h: Seq<HistoricalTest>,
    k: int,
    r: Seq<int>,
)
    requires
        reports_flaky(out, h),
        0 <= k < out.len(),
        are_executions(h, out[k].test_name@, r),
    ensures
        out[k].total_runs == r.len(),
        out[k].flip_count == changes(h, r).len(),
        out[k].flip_rate.part == changes(h, r).len(),
        out[k].flip_rate.whole == r.len() - 1,
{
    let prints = report_of(out, h, k, r);
    flips_are_changes(h, r);
}

proof fn report_of(
    out: Seq<FlakyTestResult>,
    h: Seq<HistoricalTest>,
    k: int,
    r: Seq<int>,
) -> (prints: Seq<String>)
    requires
        reports_flaky(out, h),
        0 <= k < out.len(),
        are_executions(h, out[k].test_name@, r),
    ensures
        are_prints(prints, h),
        is_report(out[k], h, prints, out[k].test_name@),
        r == runs_of(h, out[k].test_name@, h.len() as int),
        is_flaky(h, prints, r),
{
    let prints = choose|prints: Seq<String>|
        prints.len() == h.len() && (forall|i: int|
            0 <= i < h.len() ==> is_print(#[trigger] prints[i], h[i])) && #[trigger] is_flaky_report(
            out,
            h,
            prints,
        );
    executions_are_runs(h, out[k].test_name@, r);
    reported_iff_flaky(out, h, prints, out[k].test_name@, r);
    assert(is_reported(out, out[k].test_name@));
    prints
}

/// The score of a result, in hundredths: forty for the share of chances in which the outcome
/// changed, forty for the share of executions that failed, and five for each distinct message
/// beyond the first, up to twenty. Halves are rounded up.
pub proof fn scores_weigh_changes_failures_and_messages(
    out: Seq<FlakyTestResult>,
    h: Seq<HistoricalTest>,
    k: int,
    r: Seq<int>,
    extra: int,
)
    requires
        reports_flaky(out, h),
        0 <= k < out.len(),
        are_executions(h, out[k].test_name@, r),
        messages(h, r).len() <= 1 ==> extra == 0,
        1 <= messages(h, r).len() <= 5 ==> extra == messages(h, r).len() - 1,
        messages(h, r).len() >= 5 ==> extra == 4,
    ensures
        ({
            let n = r.len() as int;
            let den = n * (n - 1);
            let num = 40 * changes(h, r).len() * n + 40 * failures(h, r).len() * (n - 1) + 5 * extra
                * den;
            out[k].composite_score * (2 * den) <= 2 * num + den < (out[k].composite_score + 1) * (2
                * den)
        }),
{
    let prints = report_of(out, h, k, r);
    flips_are_changes(h, r);
    failed_are_failures(h, r);
    patterns_are_messages(h, prints, r);
    crate::flaky::counts_bounded(h, prints, r);
    let n = r.len() as int;
    let f = flips(h, r) as int;
    let c = failed_count(h, r) as int;
    let p = failure_patterns(h, prints, r).len();
    let den = n * (n - 1);
    assert(variance_quarters(p) == extra);
    let num = 40 * (f * n) + 40 * (c * (n - 1)) + 5 * (extra * den);
    let s = composite(r.len(), flips(h, r), failed_count(h, r), p) as int;
    assert(den >= 20) by (nonlinear_arith)
        requires
            n >= 5,
            den == n * (n - 1),
    ;
    assert(num >= 0) by (nonlinear_arith)
        requires
            f >= 0,
            c >= 0,
            n >= 5,
            extra >= 0,
            den >= 20,
            num == 40 * (f * n) + 40 * (c * (n - 1)) + 5 * (extra * den),
    ;
    let a = 2 * num + den;
    let b = 2 * den;
    lemma_fundamental_div_mod(a, b);
    assert(a / b >= 0) by (nonlinear_arith)
        requires
            a >= 0,
            b > 0,
    ;
    assert(s == a / b);
    assert(s * b <= a < (s + 1) * b) by (nonlinear_arith)
        requires
            a == b * s + a % b,
            0 <= a % b < b,
    ;
    assert(num == 40 * f * n + 40 * c * (n - 1) + 5 * extra * den) by (nonlinear_arith)
        requires
            num == 40 * (f * n) + 40 * (c * (n - 1)) + 5 * (extra * den),
    ;
}

/// A result says when the outcome last changed: when the last execution started that ended
/// otherwise than the one before it.
pub proof fn the_last_change_is_reported(
    out: Seq<FlakyTestResult>,
    h: Seq<HistoricalTest>,
    k: int,
    r: Seq<int>,
)
    requires
        reports_flaky(out, h),
        0 <= k < out.len(),
        are_executions(h, out[k].test_name@, r),
    ensures
        match opt_text(out[k].last_flipped_at) {
            Some(t) => exists|i: int|
                {
                    &&& #[trigger] changes(h, r).contains(i)
                    &&& t == h[r[i]].started_at@
                    &&& forall|j: int| #[trigger] changes(h, r).contains(j) ==> j <= i
                },
            None => changes(h, r) == Set::<int>::empty(),
        },
{
    let prints = report_of(out, h, k, r);
    last_change_is_last(h, r);
}

proof fn last_change_is_last(h: Seq<HistoricalTest>, r: Seq<int>)
    ensures
        match last_flip(h, r) {
            Some(t) => exists|i: int|
                {
                    &&& #[trigger] changes(h, r).contains(i)
                    &&& t == h[r[i]].started_at@
                    &&& forall|j: int| #[trigger] changes(h, r).contains(j) ==> j <= i
                },
            None => changes(h, r) == Set::<int>::empty(),
        },
    decreases r.len(),
{
    if r.len() < 2 {
        assert(changes(h, r) =~= Set::empty());
    } else if h[r.last()].status@ != h[r[r.len() - 2]].status@ {
        assert(changes(h, r).contains(r.len() - 1));
    } else {
        let q = r.drop_last();
        last_change_is_last(h, q);
        assert(changes(h, r) =~= changes(h, q));
        if last_flip(h, q) is Some {
            let i = choose|i: int|
                {
                    &&& #[trigger] changes(h, q).contains(i)
                    &&& last_flip(h, q)->0 == h[q[i]].started_at@
                    &&& forall|j: int| #[trigger] changes(h, q).contains(j) ==> j <= i
                };
            assert(changes(h, r).contains(i));
            assert(q[i] == r[i]);
        }
    }
}

/// A result names the file of the latest execution that has one.
pub proof fn the_latest_file_is_reported(
    out: Seq<FlakyTestResult>,
    h: Seq<HistoricalTest>,
    k: int,
    r: Seq<int>,
    i: int,
)
    requires
        reports_flaky(out, h),
        0 <= k < out.len(),
        are_executions(h, out[k].test_name@, r),
        0 <= i < r.len(),
        h[r[i]].file_path@.len() > 0,
        forall|j: int| i < j < r.len() ==> h[#[trigger] r[j]].file_path@.len() == 0,
    ensures
        out[k].file_path@ == h[r[i]].file_path@,
{
    let prints = report_of(out, h, k, r);
    latest_file_is_latest(h, r, i);
}

proof fn latest_file_is_latest(h: Seq<HistoricalTest>, r: Seq<int>, i: int)
    requires
        0 <= i < r.len(),
        h[r[i]].file_path@.len() > 0,
        forall|j: int| i < j < r.len() ==> h[#[trigger] r[j]].file_path@.len() == 0,
    ensures
        latest_file(h, r) == h[r[i]].file_path@,
    decreases r.len(),
{
    if i < r.len() - 1 {
        assert(h[r[r.len() - 1]].file_path@.len() == 0);
        let q = r.drop_last();
        assert forall|j: int| i < j < q.len() implies h[#[trigger] q[j]].file_path@.len() == 0 by {
            assert(q[j] == r[j]);
        }
        latest_file_is_latest(h, q, i);
    }
}

} // verus!
