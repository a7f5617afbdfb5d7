//! The health score of a run: pass rate, stability and trend on a scale from 0 to 100.
use vstd::prelude::*;

verus! {

/// A number of points as a fraction.
#[derive(Clone, Copy, PartialEq, Eq, Structural, Debug)]
pub struct Points {
    pub num: i64,
    /// Positive.
    pub den: i64,
}

/// A run's health.
pub struct HealthScore {
    /// In points, from 0 to 100.
    pub score: i64,
    pub label: String,
    pub trend: String,
    /// The score that the trend was judged against.
    pub previous_score: Option<Points>,
}

/// `num / den` in whole points: kept within 0 and 100, halves rounded up. `den` is positive.
pub open spec fn points(num: int, den: int) -> int {
    if num <= 0 {
        0
    } else if num >= 100 * den {
        100
    } else {
        (2 * num + den) / (2 * den)
    }
}

/// Points before the trend, as a numerator over `total`: six tenths of the pass rate and three
/// tenths of the share of tests that are not flaky.
pub open spec fn base_points(total: int, passed: int, flaky: int) -> int {
    60 * passed + 30 * total - 30 * flaky
}

/// The score in points that a trend bonus of `bonus` points leads to.
pub open spec fn score_with(total: int, passed: int, flaky: int, bonus: int) -> int {
    if total < 0 {
        points(-(base_points(total, passed, flaky) + bonus * total), -total)
    } else {
        points(base_points(total, passed, flaky) + bonus * total, total)
    }
}

/// The direction in which a run with `neutral` points moves against a previous score: a change of
/// more than two points counts.
pub open spec fn trend_of(neutral: int, previous: Option<Points>) -> Seq<char> {
    match previous {
        Some(prev) => if neutral * prev.den - prev.num > 2 * prev.den {
            "improving"@
        } else if neutral * prev.den - prev.num < -2 * prev.den {
            "declining"@
        } else {
            "stable"@
        },
        None => "stable"@,
    }
}

/// The bonus points of a trend.
pub open spec fn bonus_of(neutral: int, previous: Option<Points>) -> int {
    match previous {
        Some(prev) => if neutral * prev.den - prev.num > 2 * prev.den {
            10
        } else if neutral * prev.den - prev.num < -2 * prev.den {
            0
        } else {
            5
        },
        None => 5,
    }
}

/// The label of a score.
pub open spec fn label_of(score: Points) -> Seq<char> {
    if score.num >= 90 * score.den {
        "excellent"@
    } else if score.num >= 75 * score.den {
        "good"@
    } else if score.num >= 50 * score.den {
        "fair"@
    } else if score.num >= 25 * score.den {
        "poor"@
    } else {
        "critical"@
    }
}

/// The score that a run ends with, in points.
pub open spec fn final_points(total: int, passed: int, flaky: int, previous: Option<Points>) -> int {
    score_with(
        total,
        passed,
        flaky,
        bonus_of(score_with(total, passed, flaky, 5), previous),
    )
}

/// Scores stay within 0 and 100 points.
pub proof fn points_bounded(num: int, den: int)
    requires
        den > 0,
    ensures
        0 <= points(num, den) <= 100,
{
    if 0 < num && num < 100 * den {
        assert(0 <= (2 * num + den) / (2 * den) <= 100) by (nonlinear_arith)
            requires
                den > 0,
                0 < num < 100 * den,
        ;
    }
}

/// A run with more passed tests never scores lower, all else and the trend bonus being equal.
pub proof fn more_passes_never_hurt(total: int, passed: int, more: int, flaky: int, bonus: int)
    requires
        total > 0,
        passed <= more,
    ensures
        score_with(total, passed, flaky, bonus) <= score_with(total, more, flaky, bonus),
{
    let a = base_points(total, passed, flaky) + bonus * total;
    let b = base_points(total, more, flaky) + bonus * total;
    assert(a <= b);
    points_bounded(a, total);
    points_bounded(b, total);
    if 0 < a && b < 100 * total {
        assert((2 * a + total) / (2 * total) <= (2 * b + total) / (2 * total)) by (nonlinear_arith)
            requires
                total > 0,
                a <= b,
        ;
    }
}

fn round_points(num: i128, den: i128) -> (r: i64)
    requires
        0 < den <= 0x1_0000_0000,
    ensures
        r == points(num as int, den as int),
        0 <= r <= 100,
{
    proof {
        points_bounded(num as int, den as int);
    }
    if num <= 0 {
        0
    } else if num >= 100 * den {
        100
    } else {
        ((2 * num + den) / (2 * den)) as i64
    }
}

fn scored(total: i32, passed: i32, flaky: u32, bonus: i128) -> (r: i64)
    requires
        total != 0,
        0 <= bonus <= 10,
    ensures
        r == score_with(total as int, passed as int, flaky as int, bonus as int),
        0 <= r <= 100,
{
    let t: i128 = total as i128;
    assert(-0x1_0000_0000_0 <= bonus * t <= 0x1_0000_0000_0) by (nonlinear_arith)
        requires
            0 <= bonus <= 10,
            -0x8000_0000 <= t <= 0x7fff_ffff,
    ;
    let num: i128 = 60 * (passed as i128) + 30 * t - 30 * (flaky as i128) + bonus * t;
    if total < 0 {
        round_points(-num, -t)
    } else {
        round_points(num, t)
    }
}

/// The label of a score.
pub fn get_health_label(score: Points) -> (r: &'static str)
    ensures
        r@ == label_of(score),
{
    let n: i128 = score.num as i128;
    let d: i128 = score.den as i128;
    if n >= 90 * d {
        "excellent"
    } else if n >= 75 * d {
        "good"
    } else if n >= 50 * d {
        "fair"
    } else if n >= 25 * d {
        "poor"
    } else {
        "critical"
    }
}

/// The score of an earlier run, for comparison: its pass rate, as if none of its tests were flaky
/// and nothing had changed. A run without tests has none.
pub open spec fn earlier_points(total: int, passed: int) -> Option<Points> {
    if total == 0 {
        None
    } else {
        let num = if total < 0 {
            -(60 * passed + 35 * total)
        } else {
            60 * passed + 35 * total
        };
        let den = if total < 0 {
            -total
        } else {
            total
        };
        Some(
            Points {
                num: (if num < 0 {
                    0
                } else if num > 100 * den {
                    100 * den
                } else {
                    num
                }) as i64,
                den: den as i64,
            },
        )
    }
}

/// The score of an earlier run, for comparison.
pub fn earlier_score(total: i32, passed: i32) -> (r: Option<Points>)
    ensures
        r == earlier_points(total as int, passed as int),
        r is Some ==> r->0.den > 0,
{
    if total == 0 {
        return None;
    }
    let raw: i64 = 60 * (passed as i64) + 35 * (total as i64);
    let num: i64 = if total < 0 {
        -raw
    } else {
        raw
    };
    let den: i64 = if total < 0 {
        -(total as i64)
    } else {
        total as i64
    };
    let kept: i64 = if num < 0 {
        0
    } else if num > 100 * den {
        100 * den
    } else {
        num
    };
    Some(Points { num: kept, den })
}

/// `r` is the health of a run with these results.
pub open spec fn is_health(
    r: HealthScore,
    total: int,
    passed: int,
    flaky: int,
    previous: Option<Points>,
) -> bool {
    if total == 0 {
        &&& r.score == 0
        &&& r.label@ == "critical"@
        &&& r.trend@ == "stable"@
        &&& r.previous_score is None
    } else {
        &&& r.score == final_points(total, passed, flaky, previous)
        &&& r.trend@ == trend_of(score_with(total, passed, flaky, 5), previous)
        &&& r.label@ == label_of(Points { num: r.score, den: 1 })
        &&& r.previous_score == previous
    }
}

/// The health score of a run of `total` tests, `passed` of which passed and `flaky_count` of which
/// are flaky. The trend compares against `previous_score`.
pub fn calculate_health_score(
    total: i32,
    passed: i32,
    flaky_count: u32,
    previous_score: Option<Points>,
) -> (r: HealthScore)
    ensures
        0 <= r.score <= 100,
        is_health(r, total as int, passed as int, flaky_count as int, previous_score),
{
    if total == 0 {
        return HealthScore {
            score: 0,
            label: "critical".to_owned(),
            trend: "stable".to_owned(),
            previous_score: None,
        };
    }
    let neutral: i64 = scored(total, passed, flaky_count, 5);
    let mut trend = "stable";
    let mut bonus: i128 = 5;
    if let Some(prev) = previous_score {
        let d: i128 = prev.den as i128;
        assert(-100 * 0x8000_0000_0000_0000 <= neutral * d <= 100 * 0x8000_0000_0000_0000)
            by (nonlinear_arith)
            requires
                0 <= neutral <= 100,
                -0x8000_0000_0000_0000 <= d <= 0x7fff_ffff_ffff_ffff,
        ;
        let change: i128 = (neutral as i128) * d - prev.num as i128;
        if change > 2 * d {
            trend = "improving";
            bonus = 10;
        } else if change + 2 * d < 0 {
            trend = "declining";
            bonus = 0;
        }
    }
    let score: i64 = scored(total, passed, flaky_count, bonus);
    HealthScore {
        score,
        label: get_health_label(Points { num: score, den: 1 }).to_owned(),
        trend: trend.to_owned(),
        previous_score,
    }
}

} // verus!
