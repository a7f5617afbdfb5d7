//! What health scores say, in numbers.
use vstd::prelude::*;
use vstd::arithmetic::div_mod::lemma_fundamental_div_mod;

use crate::health::{
    base_points, earlier_points, is_health, label_of, points, score_with, HealthScore, Points,
};

verus! {

/// `n` is `num / den` in whole points: the nearest number, halves rounded up, but never below 0 or
/// above 100.
pub open spec fn is_nearest(n: int, num: int, den: int) -> bool {
    &&& 0 <= n <= 100
    &&& num <= 0 ==> n == 0
    &&& num >= 100 * den ==> n == 100
    &&& 0 < num < 100 * den ==> n * (2 * den) <= 2 * num + den < (n + 1) * (2 * den)
}

proof fn points_are_nearest(num: int, den: int)
    requires
        den > 0,
    ensures
        is_nearest(points(num, den), num, den),
{
    crate::health::points_bounded(num, den);
    let n = points(num, den);
    if 0 < num && num < 100 * den {
        let a = 2 * num + den;
        let b = 2 * den;
        lemma_fundamental_div_mod(a, b);
        assert(a == b * n + a % b);
        assert(n * b <= a < (n + 1) * b) by (nonlinear_arith)
            requires
                a == b * n + a % b,
                0 <= a % b < b,
        ;
    }
}

proof fn nearest_is_unique(n: int, m: int, num: int, den: int)
    requires
        den > 0,
        is_nearest(n, num, den),
        is_nearest(m, num, den),
    ensures
        n == m,
{
    if 0 < num && num < 100 * den {
        let a = 2 * num + den;
        let b = 2 * den;
        assert(n == m) by (nonlinear_arith)
            requires
                n * b <= a < (n + 1) * b,
                m * b <= a < (m + 1) * b,
                b > 0,
        ;
    }
}

proof fn score_is_nearest(total: int, passed: int, flaky: int, bonus: int)
    requires
        total > 0,
    ensures
        is_nearest(
            score_with(total, passed, flaky, bonus),
            60 * passed + 30 * (total - flaky) + bonus * total,
            total,
        ),
{
    points_are_nearest(base_points(total, passed, flaky) + bonus * total, total);
    assert(base_points(total, passed, flaky) == 60 * passed + 30 * (total - flaky));
}

/// A run scores sixty points for its pass rate, thirty for the share of tests that are not flaky,
/// and up to ten for the trend. Against a previous score of `prev`, the trend compares `neutral`,
/// the score with half of the ten: more than two points above it is an improvement and earns all
/// ten, more than two below it a decline and earns none, and anything else is stable and earns
/// half.
pub proof fn trend_turns_at_two_points(
    r: HealthScore,
    total: int,
    passed: int,
    flaky: int,
    prev: Points,
    neutral: int,
)
    requires
        total > 0,
        prev.den > 0,
        is_health(r, total, passed, flaky, Some(prev)),
        is_nearest(neutral, 60 * passed + 30 * (total - flaky) + 5 * total, total),
    ensures
        neutral * prev.den - prev.num > 2 * prev.den ==> r.trend@ == "improving"@ && is_nearest(
            r.score as int,
            60 * passed + 30 * (total - flaky) + 10 * total,
            total,
        ),
        prev.num - neutral * prev.den > 2 * prev.den ==> r.trend@ == "declining"@ && is_nearest(
            r.score as int,
            60 * passed + 30 * (total - flaky),
            total,
        ),
        -2 * prev.den <= neutral * prev.den - prev.num <= 2 * prev.den ==> r.trend@ == "stable"@
            && r.score == neutral,
        r.previous_score == Some(prev),
{
    score_is_nearest(total, passed, flaky, 5);
    score_is_nearest(total, passed, flaky, 10);
    score_is_nearest(total, passed, flaky, 0);
    nearest_is_unique(
        neutral,
        score_with(total, passed, flaky, 5),
        60 * passed + 30 * (total - flaky) + 5 * total,
        total,
    );
}

/// Without a previous score the trend is stable and earns half of its ten points.
pub proof fn first_runs_are_stable(r: HealthScore, total: int, passed: int, flaky: int)
    requires
        total > 0,
        is_health(r, total, passed, flaky, None),
    ensures
        r.trend@ == "stable"@,
        is_nearest(
            r.score as int,
            60 * passed + 30 * (total - flaky) + 5 * total,
            total,
        ),
        r.previous_score is None,
{
    score_is_nearest(total, passed, flaky, 5);
}

/// A run without tests is critical, whatever came before it.
pub proof fn empty_runs_are_critical(
    r: HealthScore,
    passed: int,
    flaky: int,
    previous: Option<Points>,
)
    requires
        is_health(r, 0, passed, flaky, previous),
    ensures
        r.score == 0,
        r.label@ == "critical"@,
        r.trend@ == "stable"@,
        r.previous_score is None,
{
}

/// The labels begin at 90, 75, 50 and 25 points.
pub proof fn labels_begin_where_they_should(
    r: HealthScore,
    total: int,
    passed: int,
    flaky: int,
    previous: Option<Points>,
)
    requires
        total > 0,
        is_health(r, total, passed, flaky, previous),
    ensures
        r.score >= 90 ==> r.label@ == "excellent"@,
        75 <= r.score < 90 ==> r.label@ == "good"@,
        50 <= r.score < 75 ==> r.label@ == "fair"@,
        25 <= r.score < 50 ==> r.label@ == "poor"@,
        r.score < 25 ==> r.label@ == "critical"@,
{
}

/// The same limits hold of a score that is a fraction.
pub proof fn labels_of_fractions(score: Points)
    requires
        score.den > 0,
    ensures
        score.num >= 90 * score.den ==> label_of(score) == "excellent"@,
        75 * score.den <= score.num < 90 * score.den ==> label_of(score) == "good"@,
        50 * score.den <= score.num < 75 * score.den ==> label_of(score) == "fair"@,
        25 * score.den <= score.num < 50 * score.den ==> label_of(score) == "poor"@,
        score.num < 25 * score.den ==> label_of(score) == "critical"@,
{
}

/// An earlier run counts with the score that it has without flaky tests and with a stable trend:
/// sixty points for its pass rate and thirty-five beside.
pub proof fn earlier_runs_count_by_pass_rate(total: i32, passed: i32)
    requires
        total > 0,
        0 <= passed <= total,
    ensures
        earlier_points(total as int, passed as int) is Some,
        ({
            let p = earlier_points(total as int, passed as int)->0;
            p.den > 0 && p.num * total == (60 * passed + 35 * total) * p.den
        }),
{
    let p = earlier_points(total as int, passed as int)->0;
    assert(p.den == total && p.num == 60 * passed + 35 * total);
    assert(p.num * total == (60 * passed + 35 * total) * p.den) by (nonlinear_arith)
        requires
            p.den == total,
            p.num == 60 * passed + 35 * total,
    ;
}

} // verus!
