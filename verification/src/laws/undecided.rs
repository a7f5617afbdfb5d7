//! Executions that neither passed nor failed say nothing about flakiness.
use vstd::prelude::*;

use crate::flaky::{
    failed_count, failure_patterns, flaky_firsts, flaky_scores, flips, is_decided, is_flaky_report,
    is_print, is_report, last_flip, latest_file, opens_flaky, runs_of, score_of, FlakyTestResult,
    HistoricalTest,
};
use crate::ranking::{is_ranking, ranking_is_unique};
use crate::run::reports_flaky;
use crate::text::opt_text;

verus! {

/// `more` is the history `h` with any number of undecided executions between its own: `at[k]` is
/// where execution `k` of `h` stands in it.
pub open spec fn is_thinned(h: Seq<HistoricalTest>, more: Seq<HistoricalTest>, at: Seq<int>) -> bool {
    &&& at.len() == h.len()
    &&& forall|k: int| 0 <= k < h.len() ==> 0 <= #[trigger] at[k] < more.len()
    &&& forall|k: int| 0 <= k < h.len() ==> more[#[trigger] at[k]] == h[k]
    &&& forall|a: int, b: int| 0 <= a < b < h.len() ==> #[trigger] at[a] < #[trigger] at[b]
    &&& forall|j: int|
        0 <= j < more.len() && is_decided(#[trigger] more[j]) ==> exists|k: int|
            0 <= k < h.len() && #[trigger] at[k] == j
}

/// Two results say the same.
pub open spec fn same_result(a: FlakyTestResult, b: FlakyTestResult) -> bool {
    &&& a.test_name@ == b.test_name@
    &&& a.file_path@ == b.file_path@
    &&& a.flip_rate == b.flip_rate
    &&& a.flip_count == b.flip_count
    &&& a.total_runs == b.total_runs
    &&& a.composite_score == b.composite_score
    &&& opt_text(a.last_flipped_at) == opt_text(b.last_flipped_at)
}

/// The positions `r` after the move `at`.
spec fn moved(r: Seq<int>, at: Seq<int>) -> Seq<int> {
    Seq::new(r.len(), |k: int| at[r[k]])
}

/// The first `m` executions of `more` are the first `n` of `h`, and undecided ones.
spec fn is_front(at: Seq<int>, n: int, m: int) -> bool {
    &&& 0 <= n <= at.len()
    &&& forall|k: int| 0 <= k < n ==> #[trigger] at[k] < m
    &&& forall|k: int| n <= k < at.len() ==> m <= #[trigger] at[k]
}

spec fn within(r: Seq<int>, n: int) -> bool {
    forall|k: int| 0 <= k < r.len() ==> 0 <= #[trigger] r[k] < n
}

proof fn front_shrinks(
    h: Seq<HistoricalTest>,
    more: Seq<HistoricalTest>,
    at: Seq<int>,
    n: int,
    m: int,
)
    requires
        is_thinned(h, more, at),
        is_front(at, n, m),
        0 < m <= more.len(),
    ensures
        n > 0 && at[n - 1] == m - 1 ==> is_front(at, n - 1, m - 1) && more[m - 1] == h[n - 1],
        !(n > 0 && at[n - 1] == m - 1) ==> is_front(at, n, m - 1) && !is_decided(more[m - 1]),
{
    if n > 0 && at[n - 1] == m - 1 {
        assert forall|k: int| 0 <= k < n - 1 implies #[trigger] at[k] < m - 1 by {
            assert(at[k] < at[n - 1]);
        }
    } else {
        assert forall|k: int| 0 <= k < n implies #[trigger] at[k] < m - 1 by {
            if k < n - 1 {
                assert(at[k] < at[n - 1]);
            }
        }
        if is_decided(more[m - 1]) {
            let k = choose|k: int| 0 <= k < h.len() && #[trigger] at[k] == m - 1;
            assert(false);
        }
    }
}

proof fn runs_move(
    h: Seq<HistoricalTest>,
    more: Seq<HistoricalTest>,
    at: Seq<int>,
    name: Seq<char>,
    n: int,
    m: int,
)
    requires
        is_thinned(h, more, at),
        is_front(at, n, m),
        0 <= m <= more.len(),
    ensures
        runs_of(more, name, m) == moved(runs_of(h, name, n), at),
        within(runs_of(h, name, n), n),
    decreases m,
{
    if m == 0 {
        if n > 0 {
            assert(at[0] < 0);
        }
        assert(runs_of(more, name, m) =~= moved(runs_of(h, name, n), at));
    } else {
        front_shrinks(h, more, at, n, m);
        if n > 0 && at[n - 1] == m - 1 {
            runs_move(h, more, at, name, n - 1, m - 1);
        } else {
            runs_move(h, more, at, name, n, m - 1);
        }
        assert(runs_of(more, name, m) =~= moved(runs_of(h, name, n), at));
    }
}

/// The fingerprints of the executions of `h` are the same in both histories.
spec fn prints_move(prints: Seq<String>, more_prints: Seq<String>, at: Seq<int>) -> bool {
    forall|k: int| 0 <= k < at.len() ==> more_prints[#[trigger] at[k]]@ == prints[k]@
}

proof fn counts_move(
    h: Seq<HistoricalTest>,
    more: Seq<HistoricalTest>,
    at: Seq<int>,
    prints: Seq<String>,
    more_prints: Seq<String>,
    r: Seq<int>,
)
    requires
        is_thinned(h, more, at),
        prints_move(prints, more_prints, at),
        within(r, h.len() as int),
    ensures
        flips(more, moved(r, at)) == flips(h, r),
        last_flip(more, moved(r, at)) == last_flip(h, r),
        failed_count(more, moved(r, at)) == failed_count(h, r),
        latest_file(more, moved(r, at)) == latest_file(h, r),
        failure_patterns(more, more_prints, moved(r, at)) == failure_patterns(h, prints, r),
    decreases r.len(),
{
    if r.len() > 0 {
        let rest = r.drop_last();
        assert(moved(r, at).drop_last() =~= moved(rest, at));
        assert forall|k: int| 0 <= k < rest.len() implies 0 <= #[trigger] rest[k] < h.len() by {
            assert(rest[k] == r[k]);
        }
        counts_move(h, more, at, prints, more_prints, rest);
        assert(0 <= r[r.len() - 1] < h.len());
        assert(moved(r, at).last() == at[r.last()]);
        assert(more[at[r.last()]] == h[r.last()]);
        if r.len() > 1 {
            let i = r[r.len() - 2];
            assert(0 <= i < h.len());
            assert(moved(r, at)[r.len() - 2] == at[i]);
            assert(more[at[i]] == h[i]);
        }
    }
}

proof fn whole_is_front(h: Seq<HistoricalTest>, more: Seq<HistoricalTest>, at: Seq<int>)
    requires
        is_thinned(h, more, at),
    ensures
        is_front(at, h.len() as int, more.len() as int),
{
}

/// Both histories say the same of one test.
proof fn scores_move(
    h: Seq<HistoricalTest>,
    more: Seq<HistoricalTest>,
    at: Seq<int>,
    prints: Seq<String>,
    more_prints: Seq<String>,
    name: Seq<char>,
)
    requires
        is_thinned(h, more, at),
        prints_move(prints, more_prints, at),
    ensures
        ({
            let r = runs_of(h, name, h.len() as int);
            let s = runs_of(more, name, more.len() as int);
            &&& s.len() == r.len()
            &&& flips(more, s) == flips(h, r)
            &&& last_flip(more, s) == last_flip(h, r)
            &&& latest_file(more, s) == latest_file(h, r)
            &&& failure_patterns(more, more_prints, s) == failure_patterns(h, prints, r)
            &&& score_of(more, more_prints, s) == score_of(h, prints, r)
        }),
{
    whole_is_front(h, more, at);
    runs_move(h, more, at, name, h.len() as int, more.len() as int);
    counts_move(h, more, at, prints, more_prints, runs_of(h, name, h.len() as int));
}

proof fn firsts_move(
    h: Seq<HistoricalTest>,
    more: Seq<HistoricalTest>,
    at: Seq<int>,
    prints: Seq<String>,
    more_prints: Seq<String>,
    n: int,
    m: int,
)
    requires
        is_thinned(h, more, at),
        prints_move(prints, more_prints, at),
        is_front(at, n, m),
        0 <= m <= more.len(),
    ensures
        flaky_firsts(more, more_prints, m) == moved(flaky_firsts(h, prints, n), at),
        within(flaky_firsts(h, prints, n), n),
    decreases m,
{
    if m == 0 {
        if n > 0 {
            assert(at[0] < 0);
        }
    } else {
        front_shrinks(h, more, at, n, m);
        if n > 0 && at[n - 1] == m - 1 {
            firsts_move(h, more, at, prints, more_prints, n - 1, m - 1);
            runs_move(h, more, at, h[n - 1].name@, n - 1, m - 1);
            scores_move(h, more, at, prints, more_prints, h[n - 1].name@);
            assert(opens_flaky(more, more_prints, m - 1) == opens_flaky(h, prints, n - 1));
        } else {
            firsts_move(h, more, at, prints, more_prints, n, m - 1);
        }
    }
    assert(flaky_firsts(more, more_prints, m) =~= moved(flaky_firsts(h, prints, n), at));
}

/// Executions that neither passed nor failed change nothing: however many of them a history holds,
/// and wherever they stand, it leads to the same report on flaky tests, in the same order.
pub proof fn undecided_executions_change_nothing(
    h: Seq<HistoricalTest>,
    more: Seq<HistoricalTest>,
    at: Seq<int>,
    a: Seq<FlakyTestResult>,
    b: Seq<FlakyTestResult>,
)
    requires
        is_thinned(h, more, at),
        reports_flaky(a, h),
        reports_flaky(b, more),
    ensures
        a.len() == b.len(),
        forall|k: int| 0 <= k < a.len() ==> same_result(#[trigger] a[k], #[trigger] b[k]),
{
    let p = choose|p: Seq<String>|
        p.len() == h.len() && (forall|i: int| 0 <= i < h.len() ==> is_print(#[trigger] p[i], h[i]))
            && #[trigger] is_flaky_report(a, h, p);
    let q = choose|q: Seq<String>|
        q.len() == more.len() && (forall|i: int|
            0 <= i < more.len() ==> is_print(#[trigger] q[i], more[i])) && #[trigger]
            is_flaky_report(b, more, q);
    assert forall|k: int| 0 <= k < at.len() implies q[#[trigger] at[k]]@ == p[k]@ by {
        assert(is_print(p[k], h[k]));
        assert(is_print(q[at[k]], more[at[k]]));
    }
    let n = h.len() as int;
    let m = more.len() as int;
    whole_is_front(h, more, at);
    firsts_move(h, more, at, p, q, n, m);
    let l = flaky_firsts(h, p, n);
    let s = flaky_firsts(more, q, m);
    assert forall|k: int| 0 <= k < l.len() implies flaky_scores(more, q)[k] == flaky_scores(
        h,
        p,
    )[k] && more[#[trigger] s[k]].name@ == h[l[k]].name@ by {
        assert(s[k] == at[l[k]]);
        assert(more[at[l[k]]] == h[l[k]]);
        scores_move(h, more, at, p, q, h[l[k]].name@);
    }
    assert(flaky_scores(more, q) =~= flaky_scores(h, p));
    let o = choose|o: Seq<int>| #[trigger]
        is_ranking(flaky_scores(h, p), o) && a.len() == l.len() && forall|k: int|
            0 <= k < l.len() ==> is_report(#[trigger] a[k], h, p, h[l[o[k]]].name@);
    let u = choose|u: Seq<int>| #[trigger]
        is_ranking(flaky_scores(more, q), u) && b.len() == s.len() && forall|k: int|
            0 <= k < s.len() ==> is_report(#[trigger] b[k], more, q, more[s[u[k]]].name@);
    ranking_is_unique(flaky_scores(h, p), o, u);
    assert forall|k: int| 0 <= k < a.len() implies same_result(#[trigger] a[k], #[trigger] b[k]) by {
        let i = l[o[k]];
        assert(0 <= o[k] < l.len());
        assert(s[o[k]] == at[i]);
        assert(more[s[o[k]]].name@ == h[i].name@);
        assert(is_report(a[k], h, p, h[i].name@));
        assert(is_report(b[k], more, q, more[s[u[k]]].name@));
        scores_move(h, more, at, p, q, h[i].name@);
    }
}

} // verus!
