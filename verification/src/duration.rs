//! Duration analytics: percentiles, mean and the slowest tests of a run.
//!
//! Durations come in nanoseconds; statistics are given in hundredths of a millisecond.
use vstd::prelude::*;

use crate::ranking::{arranged, is_ranking, rank_desc};

verus! {

/// A test's name, its file and its duration in nanoseconds.
pub type TimedTest = (String, String, u64);

/// Statistics over the durations of a run, in hundredths of a millisecond.
pub struct DurationAnalysis {
    pub p50: u128,
    pub p75: u128,
    pub p90: u128,
    pub p95: u128,
    pub p99: u128,
    pub mean: u128,
    pub slowest_tests: Vec<SlowestTest>,
}

pub struct SlowestTest {
    pub test_name: String,
    pub file_path: String,
    /// In nanoseconds.
    pub duration: u64,
    /// The share of tests that take no longer, in hundredths of a percent.
    pub percentile: u128,
}

/// `num / den`, halves rounded up.
pub open spec fn rounded(num: int, den: int) -> int {
    (2 * num + den) / (2 * den)
}

/// A hundred times the value at `percentile` percent of the way through `sorted`, by linear
/// interpolation between neighbours.
pub open spec fn interpolated(sorted: Seq<u64>, percentile: int) -> int {
    if sorted.len() == 0 {
        0
    } else {
        let at = percentile * (sorted.len() - 1);
        let low = at / 100;
        let rest = at % 100;
        if rest == 0 {
            100 * sorted[low]
        } else {
            sorted[low] * (100 - rest) + sorted[low + 1] * rest
        }
    }
}

/// The durations in ascending order, where `order` ranks the tests slowest first.
pub open spec fn ascending_durations(tests: Seq<TimedTest>, order: Seq<int>) -> Seq<u64> {
    Seq::new(order.len(), |k: int| tests[order[order.len() - 1 - k]].2)
}

/// The sum of the first `n` durations.
pub open spec fn total_duration(tests: Seq<TimedTest>, n: int) -> int
    decreases n,
{
    if n <= 0 {
        0
    } else {
        total_duration(tests, n - 1) + tests[n - 1].2
    }
}

/// How many of the first `n` tests take no longer than `d`.
pub open spec fn no_slower(tests: Seq<TimedTest>, d: u64, n: int) -> int
    decreases n,
{
    if n <= 0 {
        0
    } else {
        no_slower(tests, d, n - 1) + if tests[n - 1].2 <= d {
            1int
        } else {
            0int
        }
    }
}

/// Each test's duration, as a ranking key.
pub open spec fn duration_keys(tests: Seq<TimedTest>) -> Seq<u128> {
    Seq::new(tests.len(), |k: int| tests[k].2 as u128)
}

/// `s` is the report on test `t`.
pub open spec fn is_slow_entry(s: SlowestTest, tests: Seq<TimedTest>, t: int) -> bool {
    &&& s.test_name@ == tests[t].0@
    &&& s.file_path@ == tests[t].1@
    &&& s.duration == tests[t].2
    &&& s.percentile == rounded(
        10000 * no_slower(tests, tests[t].2, tests.len() as int),
        tests.len() as int,
    )
}

/// How many of the slowest tests a run's report lists.
pub const SLOWEST_LISTED: usize = 10;

/// `r` analyzes `tests`, ranked slowest first by `order`, and lists at most `most` of them.
pub open spec fn is_analysis(
    r: DurationAnalysis,
    tests: Seq<TimedTest>,
    order: Seq<int>,
    most: int,
) -> bool {
    let sorted = ascending_durations(tests, order);
    let n = tests.len() as int;
    &&& r.p50 == rounded(interpolated(sorted, 50), 1_000_000)
    &&& r.p75 == rounded(interpolated(sorted, 75), 1_000_000)
    &&& r.p90 == rounded(interpolated(sorted, 90), 1_000_000)
    &&& r.p95 == rounded(interpolated(sorted, 95), 1_000_000)
    &&& r.p99 == rounded(interpolated(sorted, 99), 1_000_000)
    &&& r.mean == (if n == 0 {
        0
    } else {
        rounded(total_duration(tests, n), n * 10_000)
    })
    &&& r.slowest_tests@.len() == (if n < most {
        n
    } else {
        most
    })
    &&& forall|k: int|
        0 <= k < r.slowest_tests@.len() ==> is_slow_entry(
            #[trigger] r.slowest_tests@[k],
            tests,
            order[k],
        )
}

/// An interpolated value lies between its neighbours, so percentiles never leave the range of the
/// durations.
pub proof fn interpolation_stays_in_range(sorted: Seq<u64>, percentile: int, low: int, high: int)
    requires
        sorted.len() > 0,
        0 <= percentile <= 100,
        forall|k: int| 0 <= k < sorted.len() ==> low <= #[trigger] sorted[k] <= high,
    ensures
        100 * low <= interpolated(sorted, percentile) <= 100 * high,
{
    let n = sorted.len() as int;
    let at = percentile * (n - 1);
    assert(0 <= at <= 100 * (n - 1)) by (nonlinear_arith)
        requires
            0 <= percentile <= 100,
            n >= 1,
            at == percentile * (n - 1),
    ;
    let l = at / 100;
    let rest = at % 100;
    assert(low <= sorted[l] <= high);
    if rest != 0 {
        assert(low <= sorted[l + 1] <= high);
        let a = sorted[l] as int;
        let b = sorted[l + 1] as int;
        assert(100 * low <= a * (100 - rest) + b * rest <= 100 * high) by (nonlinear_arith)
            requires
                low <= a <= high,
                low <= b <= high,
                0 < rest < 100,
        ;
    }
}

fn round_div(num: u128, den: u128) -> (r: u128)
    requires
        0 < den < 0x1_0000_0000_0000_0000_0000_0000,
        num < 0x1_0000_0000_0000_0000_0000_0000_0000,
    ensures
        r == rounded(num as int, den as int),
{
    (2 * num + den) / (2 * den)
}

/// A hundred times the value at `percentile` percent of the way through `sorted`, which is in
/// ascending order. Zero for an empty list.
pub fn calculate_percentile(sorted: &Vec<u64>, percentile: u64) -> (r: u128)
    requires
        percentile <= 100,
    ensures
        r == interpolated(sorted@, percentile as int),
        r <= 100 * u64::MAX,
{
    if sorted.len() == 0 {
        return 0;
    }
    let n: u128 = sorted.len() as u128;
    assert(0 <= percentile * (n - 1) <= 100 * (n - 1)) by (nonlinear_arith)
        requires
            percentile <= 100,
            n >= 1,
    ;
    let at: u128 = (percentile as u128) * (n - 1);
    let low: usize = (at / 100) as usize;
    let rest: u128 = at % 100;
    proof {
        interpolation_stays_in_range(sorted@, percentile as int, 0, u64::MAX as int);
    }
    if rest == 0 {
        100 * (sorted[low] as u128)
    } else {
        let a: u128 = sorted[low] as u128;
        let b: u128 = sorted[low + 1] as u128;
        assert(a * (100 - rest) <= 100 * u64::MAX && b * rest <= 100 * u64::MAX) by (nonlinear_arith)
            requires
                0 < rest < 100,
                0 <= a <= u64::MAX,
                0 <= b <= u64::MAX,
        ;
        a * (100 - rest) + b * rest
    }
}

proof fn no_slower_bounded(tests: Seq<TimedTest>, d: u64, n: int)
    ensures
        0 <= no_slower(tests, d, n),
        n >= 0 ==> no_slower(tests, d, n) <= n,
    decreases n,
{
    if n > 0 {
        no_slower_bounded(tests, d, n - 1);
    }
}

fn count_no_slower(tests: &Vec<TimedTest>, d: u64) -> (r: u128)
    ensures
        r == no_slower(tests@, d, tests@.len() as int),
        r <= tests@.len(),
{
    let mut r: u128 = 0;
    let mut i: usize = 0;
    while i < tests.len()
        invariant
            0 <= i <= tests@.len(),
            r == no_slower(tests@, d, i as int),
            r <= i,
        decreases tests@.len() - i,
    {
        if tests[i].2 <= d {
            r = r + 1;
        }
        i += 1;
    }
    r
}

/// Analyzes the durations of a run: percentiles, mean and the ten slowest tests.
pub fn analyze_duration(tests: &Vec<TimedTest>) -> (r: DurationAnalysis)
    ensures
        exists|order: Seq<int>| #[trigger]
            is_ranking(duration_keys(tests@), order) && is_analysis(
                r,
                tests@,
                order,
                SLOWEST_LISTED as int,
            ),
        tests@.len() <= 10 ==> r.slowest_tests@.len() == tests@.len(),
        tests@.len() > 10 ==> r.slowest_tests@.len() == 10,
{
    analyze_slowest(tests, SLOWEST_LISTED)
}

/// Analyzes the durations of a run: percentiles, mean and the `most` slowest tests.
pub fn analyze_slowest(tests: &Vec<TimedTest>, most: usize) -> (r: DurationAnalysis)
    ensures
        exists|order: Seq<int>| #[trigger]
            is_ranking(duration_keys(tests@), order) && is_analysis(
                r,
                tests@,
                order,
                most as int,
            ),
{
    let n: usize = tests.len();
    let mut positions: Vec<usize> = Vec::new();
    let mut keys: Vec<u128> = Vec::new();
    let mut sum: u128 = 0;
    let mut i: usize = 0;
    while i < n
        invariant
            0 <= i <= n,
            n == tests@.len(),
            positions@.len() == i,
            keys@.len() == i,
            forall|k: int| 0 <= k < i ==> #[trigger] positions@[k] == k,
            forall|k: int| 0 <= k < i ==> #[trigger] keys@[k] == tests@[k].2,
            sum == total_duration(tests@, i as int),
            sum <= i * u64::MAX,
        decreases n - i,
    {
        let d: u64 = tests[i].2;
        positions.push(i);
        keys.push(d as u128);
        assert(i * u64::MAX + u64::MAX == (i + 1) * u64::MAX) by (nonlinear_arith);
        assert((i + 1) * u64::MAX <= 0xffff_ffff_ffff_ffff * 0xffff_ffff_ffff_ffff)
            by (nonlinear_arith)
            requires
                i + 1 <= 0xffff_ffff_ffff_ffff,
        ;
        sum = sum + d as u128;
        i += 1;
    }
    assert(keys@ =~= duration_keys(tests@));
    let ghost ps = positions@;
    let by_duration = rank_desc(positions, keys);
    let ghost order = choose|order: Seq<int>| #[trigger]
        is_ranking(duration_keys(tests@), order) && by_duration@ == arranged(ps, order);
    proof {
        assert(is_ranking(duration_keys(tests@), order));
        assert forall|k: int| 0 <= k < n implies #[trigger] by_duration@[k] == order[k] by {
            assert(by_duration@[k] == ps[order[k]]);
        }
    }
    let mut sorted: Vec<u64> = Vec::new();
    let mut k: usize = 0;
    while k < n
        invariant
            0 <= k <= n,
            n == tests@.len() == by_duration@.len() == order.len(),
            is_ranking(duration_keys(tests@), order),
            forall|j: int| 0 <= j < n ==> #[trigger] by_duration@[j] == order[j],
            sorted@ == ascending_durations(tests@, order).take(k as int),
        decreases n - k,
    {
        let t: usize = by_duration[n - 1 - k];
        assert(by_duration@[n - 1 - k] == order[n - 1 - k]);
        sorted.push(tests[t].2);
        k += 1;
        assert(sorted@ =~= ascending_durations(tests@, order).take(k as int));
    }
    assert(sorted@ =~= ascending_durations(tests@, order));
    let mut slowest: Vec<SlowestTest> = Vec::new();
    let top: usize = if n < most {
        n
    } else {
        most
    };
    k = 0;
    while k < top
        invariant
            0 <= k <= top <= n,
            n == tests@.len() == by_duration@.len() == order.len(),
            is_ranking(duration_keys(tests@), order),
            forall|j: int| 0 <= j < n ==> #[trigger] by_duration@[j] == order[j],
            slowest@.len() == k,
            forall|j: int| 0 <= j < k ==> is_slow_entry(#[trigger] slowest@[j], tests@, order[j]),
        decreases top - k,
    {
        let t: usize = by_duration[k];
        let d: u64 = tests[t].2;
        let rank: u128 = count_no_slower(tests, d);
        slowest.push(
            SlowestTest {
                test_name: tests[t].0.clone(),
                file_path: tests[t].1.clone(),
                duration: d,
                percentile: round_div(10000 * rank, n as u128),
            },
        );
        k += 1;
    }
    let mean: u128 = if n == 0 {
        0
    } else {
        assert(n * u64::MAX < 0x1_0000_0000_0000_0000 * 0x1_0000_0000_0000_0000)
            by (nonlinear_arith)
            requires
                n <= 0xffff_ffff_ffff_ffff,
        ;
        mean_of(sum, n)
    };
    DurationAnalysis {
        p50: round_div(calculate_percentile(&sorted, 50), 1_000_000),
        p75: round_div(calculate_percentile(&sorted, 75), 1_000_000),
        p90: round_div(calculate_percentile(&sorted, 90), 1_000_000),
        p95: round_div(calculate_percentile(&sorted, 95), 1_000_000),
        p99: round_div(calculate_percentile(&sorted, 99), 1_000_000),
        mean,
        slowest_tests: slowest,
    }
}

/// The mean of `n` durations that sum to `sum`, in hundredths of a millisecond. Written with the
/// quotient and the remainder apart, because twice the sum may not fit.
fn mean_of(sum: u128, n: usize) -> (r: u128)
    requires
        n > 0,
        sum <= n * u64::MAX,
    ensures
        r == rounded(sum as int, n * 10_000),
{
    let den: u128 = (n as u128) * 10_000;
    let q: u128 = sum / den;
    let rest: u128 = sum % den;
    proof {
        let s = sum as int;
        let d = den as int;
        let qi = q as int;
        let ri = rest as int;
        vstd::arithmetic::div_mod::lemma_fundamental_div_mod(s, d);
        assert(s == d * qi + ri);
        assert((2 * s + d) == (2 * d) * qi + (2 * ri + d)) by (nonlinear_arith)
            requires
                s == d * qi + ri,
        ;
        if 2 * ri >= d {
            assert((2 * d) * (qi + 1) == (2 * d) * qi + 2 * d) by (nonlinear_arith);
            assert((qi + 1) * (2 * d) == (2 * d) * (qi + 1)) by (nonlinear_arith);
            vstd::arithmetic::div_mod::lemma_fundamental_div_mod_converse(
                2 * s + d,
                2 * d,
                qi + 1,
                2 * ri - d,
            );
        } else {
            assert(qi * (2 * d) == (2 * d) * qi) by (nonlinear_arith);
            vstd::arithmetic::div_mod::lemma_fundamental_div_mod_converse(
                2 * s + d,
                2 * d,
                qi,
                2 * ri + d,
            );
        }
        assert(qi <= s) by (nonlinear_arith)
            requires
                s == d * qi + ri,
                d >= 1,
                ri >= 0,
                qi >= 0,
        ;
        assert(n * u64::MAX <= 0xffff_ffff_ffff_ffff * 0xffff_ffff_ffff_ffff) by (nonlinear_arith)
            requires
                n <= 0xffff_ffff_ffff_ffff,
        ;
    }
    if 2 * rest >= den {
        q + 1
    } else {
        q
    }
}

} // verus!
