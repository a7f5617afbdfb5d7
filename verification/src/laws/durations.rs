//! What the analysis of durations says, counted over the tests themselves.
use vstd::prelude::*;
use vstd::arithmetic::div_mod::lemma_fundamental_div_mod;
use vstd::set_lib::{lemma_int_range, lemma_len_subset, set_int_range};

use crate::duration::{
    ascending_durations, duration_keys, interpolated, is_analysis, is_slow_entry, no_slower,
    rounded, total_duration, DurationAnalysis, SlowestTest, TimedTest,
};
use crate::ranking::{is_ranking, precedes, ranking_is_complete};

verus! {

/// The tests that take no longer than `d`.
pub open spec fn at_most(tests: Seq<TimedTest>, d: int) -> Set<int> {
    Set::new(|k: int| 0 <= k < tests.len() && tests[k].2 <= d)
}

/// The tests that take less than `d`.
pub open spec fn below(tests: Seq<TimedTest>, d: int) -> Set<int> {
    Set::new(|k: int| 0 <= k < tests.len() && tests[k].2 < d)
}

/// `d` is the duration in place `i`, counted from zero, when the tests are lined up from the fastest
/// to the slowest: so many tests or fewer are faster, and more than so many take no longer.
pub open spec fn is_in_place(tests: Seq<TimedTest>, i: int, d: int) -> bool {
    below(tests, d).len() <= i < at_most(tests, d).len()
}

/// `r` is `num / den`, halves rounded up.
pub open spec fn is_rounded(r: int, num: int, den: int) -> bool {
    r * (2 * den) <= 2 * num + den < (r + 1) * (2 * den)
}

/// `sums[k]` is the sum of the first `k` durations.
pub open spec fn are_sums(sums: Seq<int>, tests: Seq<TimedTest>) -> bool {
    &&& sums.len() == tests.len() + 1
    &&& sums[0] == 0
    &&& forall|k: int| 0 <= k < tests.len() ==> #[trigger] sums[k + 1] == sums[k] + tests[k].2
}

proof fn rounded_is_rounded(num: int, den: int)
    requires
        den > 0,
    ensures
        is_rounded(rounded(num, den), num, den),
{
    let a = 2 * num + den;
    let b = 2 * den;
    let n = rounded(num, den);
    lemma_fundamental_div_mod(a, b);
    assert(n * b <= a < (n + 1) * b) by (nonlinear_arith)
        requires
            a == b * n + a % b,
            0 <= a % b < b,
    ;
}

// ---------------------------------------------------------------------------------------------
// Counting
// ---------------------------------------------------------------------------------------------
proof fn counted_sets(tests: Seq<TimedTest>, d: int)
    ensures
        at_most(tests, d).finite(),
        below(tests, d).finite(),
        at_most(tests, d).len() <= tests.len(),
        below(tests, d).len() <= tests.len(),
{
    let n = tests.len() as int;
    lemma_int_range(0, n);
    assert(at_most(tests, d).subset_of(set_int_range(0, n)));
    assert(below(tests, d).subset_of(set_int_range(0, n)));
    lemma_len_subset(at_most(tests, d), set_int_range(0, n));
    lemma_len_subset(below(tests, d), set_int_range(0, n));
}

proof fn counting_counts(tests: Seq<TimedTest>, d: u64, n: int)
    requires
        0 <= n <= tests.len(),
    ensures
        at_most(tests.take(n), d as int).finite(),
        at_most(tests.take(n), d as int).len() == no_slower(tests, d, n),
    decreases n,
{
    counted_sets(tests.take(n), d as int);
    if n == 0 {
        assert(at_most(tests.take(n), d as int) =~= Set::empty());
    } else {
        counting_counts(tests, d, n - 1);
        let before = at_most(tests.take(n - 1), d as int);
        let now = at_most(tests.take(n), d as int);
        if tests[n - 1].2 <= d {
            assert(now =~= before.insert(n - 1));
            assert(!before.contains(n - 1));
        } else {
            assert(now =~= before);
        }
    }
}

/// The percentile of a listed test is the share of the tests that take no longer, in hundredths of
/// a percent.
pub proof fn percentiles_count_the_tests(
    r: DurationAnalysis,
    tests: Seq<TimedTest>,
    order: Seq<int>,
    most: int,
    k: int,
)
    requires
        is_ranking(duration_keys(tests), order),
        is_analysis(r, tests, order, most),
        0 <= k < r.slowest_tests@.len(),
    ensures
        is_rounded(
            r.slowest_tests@[k].percentile as int,
            10000 * at_most(tests, r.slowest_tests@[k].duration as int).len() as int,
            tests.len() as int,
        ),
{
    let s = r.slowest_tests@[k];
    let n = tests.len() as int;
    assert(is_slow_entry(s, tests, order[k]));
    counting_counts(tests, s.duration, n);
    assert(tests.take(n) =~= tests);
    rounded_is_rounded(10000 * no_slower(tests, s.duration, n), n);
}

/// Of two tests the faster one has a smaller count behind its percentile, and a test that is faster
/// than all the others counts itself alone.
pub proof fn faster_tests_count_less(tests: Seq<TimedTest>, i: int, j: int)
    requires
        0 <= i < tests.len(),
        0 <= j < tests.len(),
        tests[i].2 < tests[j].2,
    ensures
        at_most(tests, tests[i].2 as int).len() < at_most(tests, tests[j].2 as int).len(),
        (forall|k: int| 0 <= k < tests.len() && k != i ==> tests[i].2 < (#[trigger] tests[k]).2)
            ==> at_most(tests, tests[i].2 as int).len() == 1,
{
    let a = at_most(tests, tests[i].2 as int);
    let b = at_most(tests, tests[j].2 as int);
    counted_sets(tests, tests[i].2 as int);
    counted_sets(tests, tests[j].2 as int);
    assert(a.insert(j).subset_of(b));
    lemma_len_subset(a.insert(j), b);
    assert(!a.contains(j));
    if forall|k: int| 0 <= k < tests.len() && k != i ==> tests[i].2 < (#[trigger] tests[k]).2 {
        assert(a =~= Set::<int>::empty().insert(i));
    }
}

// ---------------------------------------------------------------------------------------------
// The slowest tests
// ---------------------------------------------------------------------------------------------
/// `at` says where the listed tests stand: each has the name, file and duration of its test, and no
/// test is listed twice.
pub open spec fn is_listing(list: Seq<SlowestTest>, tests: Seq<TimedTest>, at: Seq<int>) -> bool {
    &&& at.len() == list.len()
    &&& at.no_duplicates()
    &&& forall|k: int| 0 <= k < at.len() ==> 0 <= #[trigger] at[k] < tests.len()
    &&& forall|k: int|
        0 <= k < at.len() ==> list[k].test_name@ == tests[#[trigger] at[k]].0@ && list[k].file_path@
            == tests[at[k]].1@ && list[k].duration == tests[at[k]].2
}

proof fn entries_are_listed(
    r: DurationAnalysis,
    tests: Seq<TimedTest>,
    order: Seq<int>,
    most: int,
    k: int,
)
    requires
        is_ranking(duration_keys(tests), order),
        is_analysis(r, tests, order, most),
        0 <= k < r.slowest_tests@.len(),
    ensures
        0 <= order[k] < tests.len(),
        r.slowest_tests@[k].test_name@ == tests[order[k]].0@,
        r.slowest_tests@[k].file_path@ == tests[order[k]].1@,
        r.slowest_tests@[k].duration == tests[order[k]].2,
{
    assert(is_slow_entry(r.slowest_tests@[k], tests, order[k]));
}

/// The report lists as many tests as asked for, or all, slowest first, and equally slow ones in
/// their order. No test that it leaves out
/// is slower than one that it lists.
pub proof fn the_slowest_are_listed(
    r: DurationAnalysis,
    tests: Seq<TimedTest>,
    order: Seq<int>,
    most: int,
) -> (at: Seq<int>)
    requires
        is_ranking(duration_keys(tests), order),
        is_analysis(r, tests, order, most),
        most >= 0,
    ensures
        is_listing(r.slowest_tests@, tests, at),
        r.slowest_tests@.len() <= most,
        r.slowest_tests@.len() < most ==> r.slowest_tests@.len() == tests.len(),
        forall|a: int, b: int|
            0 <= a < b < at.len() ==> tests[#[trigger] at[a]].2 > tests[#[trigger] at[b]].2 || (
            tests[at[a]].2 == tests[at[b]].2 && at[a] < at[b]),
        forall|i: int, k: int|
            0 <= i < tests.len() && !at.contains(i) && 0 <= k < at.len() ==> (#[trigger] tests[i]).2
                <= tests[#[trigger] at[k]].2,
{
    let list = r.slowest_tests@;
    let m = list.len() as int;
    assert(m <= order.len() && m <= most && (m < most ==> m == tests.len()));
    let at = order.take(m);
    assert forall|k: int| 0 <= k < at.len() implies 0 <= #[trigger] at[k] < tests.len()
        && list[k].test_name@ == tests[at[k]].0@ && list[k].file_path@ == tests[at[k]].1@
        && list[k].duration == tests[at[k]].2 by {
        entries_are_listed(r, tests, order, most, k);
    }
    first_are_slowest(tests, order, m);
    at
}

proof fn first_are_slowest(tests: Seq<TimedTest>, order: Seq<int>, m: int)
    requires
        is_ranking(duration_keys(tests), order),
        0 <= m <= order.len(),
    ensures
        order.take(m).no_duplicates(),
        forall|a: int, b: int|
            0 <= a < b < m ==> tests[#[trigger] order.take(m)[a]].2 > tests[#[trigger] order.take(
                m,
            )[b]].2 || (tests[order.take(m)[a]].2 == tests[order.take(m)[b]].2 && order.take(m)[a]
                < order.take(m)[b]),
        forall|i: int, k: int|
            0 <= i < tests.len() && !order.take(m).contains(i) && 0 <= k < m ==> (
            #[trigger] tests[i]).2 <= tests[#[trigger] order.take(m)[k]].2,
{
    let keys = duration_keys(tests);
    let at = order.take(m);
    assert forall|a: int, b: int|
        0 <= a < at.len() && 0 <= b < at.len() && a != b implies at[a] != at[b] by {
        if a < b {
            assert(precedes(keys, order[a], order[b]));
        } else {
            assert(precedes(keys, order[b], order[a]));
        }
    }
    assert forall|a: int, b: int| 0 <= a < b < m implies tests[#[trigger] at[a]].2
        > tests[#[trigger] at[b]].2 || (tests[at[a]].2 == tests[at[b]].2 && at[a] < at[b]) by {
        assert(precedes(keys, order[a], order[b]));
    }
    assert forall|i: int, k: int|
        0 <= i < tests.len() && !at.contains(i) && 0 <= k < m implies (#[trigger] tests[i]).2
        <= tests[#[trigger] at[k]].2 by {
        ranking_is_complete(keys, order, i);
        let j = choose|j: int| 0 <= j < order.len() && order[j] == i;
        if j < m {
            assert(at[j] == i);
        }
        assert(precedes(keys, order[k], order[j]));
    }
}

// ---------------------------------------------------------------------------------------------
// Percentiles of the run
// ---------------------------------------------------------------------------------------------
/// The positions that `order` gives from `from` to `to`.
spec fn stretch(order: Seq<int>, from: int, to: int) -> Set<int> {
    order.subrange(from, to).to_set()
}

proof fn stretches_are_counted(keys: Seq<u128>, order: Seq<int>, from: int, to: int)
    requires
        is_ranking(keys, order),
        0 <= from <= to <= order.len(),
    ensures
        stretch(order, from, to).finite(),
        stretch(order, from, to).len() == to - from,
{
    let part = order.subrange(from, to);
    assert(part.no_duplicates()) by {
        assert forall|a: int, b: int|
            0 <= a < part.len() && 0 <= b < part.len() && a != b implies part[a] != part[b] by {
            if a < b {
                assert(precedes(keys, order[from + a], order[from + b]));
            } else {
                assert(precedes(keys, order[from + b], order[from + a]));
            }
        }
    }
    part.unique_seq_to_set();
    vstd::seq_lib::seq_to_set_is_finite(part);
}

/// The ascending list has each duration in its place.
proof fn sorted_is_in_place(tests: Seq<TimedTest>, order: Seq<int>, i: int)
    requires
        is_ranking(duration_keys(tests), order),
        0 <= i < tests.len(),
    ensures
        is_in_place(tests, i, ascending_durations(tests, order)[i] as int),
{
    let keys = duration_keys(tests);
    let n = tests.len() as int;
    let d = ascending_durations(tests, order)[i] as int;
    let p = n - 1 - i;
    assert(d == tests[order[p]].2);
    counted_sets(tests, d);
    let slow = stretch(order, p, n);
    stretches_are_counted(keys, order, p, n);
    assert(slow.subset_of(at_most(tests, d))) by {
        assert forall|k: int| slow.contains(k) implies at_most(tests, d).contains(k) by {
            let part = order.subrange(p, n);
            let j = choose|j: int| 0 <= j < part.len() && part[j] == k;
            assert(order[p + j] == k);
            if j > 0 {
                assert(precedes(keys, order[p], order[p + j]));
            }
        }
    }
    lemma_len_subset(slow, at_most(tests, d));
    let tail = stretch(order, p + 1, n);
    stretches_are_counted(keys, order, p + 1, n);
    assert(below(tests, d).subset_of(tail)) by {
        assert forall|k: int| below(tests, d).contains(k) implies tail.contains(k) by {
            ranking_is_complete(keys, order, k);
            let j = choose|j: int| 0 <= j < order.len() && order[j] == k;
            if j < p {
                assert(precedes(keys, order[j], order[p]));
            }
            assert(order.subrange(p + 1, n)[j - p - 1] == k);
        }
    }
    lemma_len_subset(below(tests, d), tail);
}

proof fn places_are_unique(tests: Seq<TimedTest>, i: int, d: int, e: int)
    requires
        is_in_place(tests, i, d),
        is_in_place(tests, i, e),
    ensures
        d == e,
{
    counted_sets(tests, d);
    counted_sets(tests, e);
    if d < e {
        assert(at_most(tests, d).subset_of(below(tests, e)));
        lemma_len_subset(at_most(tests, d), below(tests, e));
    } else if e < d {
        assert(at_most(tests, e).subset_of(below(tests, d)));
        lemma_len_subset(at_most(tests, e), below(tests, d));
    }
}

/// Whether `value`, in hundredths of a millisecond, stands `percent` percent of the way from the
/// fastest test to the slowest: where that falls between the places `i` and `i + 1`, between their
/// durations `low` and `high` in proportion. Durations are in nanoseconds.
pub open spec fn is_percentile(
    value: int,
    tests: Seq<TimedTest>,
    percent: int,
    i: int,
    low: int,
    high: int,
) -> bool {
    let way = percent * (tests.len() - 1) - 100 * i;
    0 <= way < 100 && is_in_place(tests, i, low) && (way > 0 ==> is_in_place(tests, i + 1, high))
        ==> is_rounded(value, low * (100 - way) + high * way, 1_000_000)
}

proof fn interpolation_is_the_percentile(
    tests: Seq<TimedTest>,
    order: Seq<int>,
    percent: int,
    i: int,
    low: int,
    high: int,
)
    requires
        is_ranking(duration_keys(tests), order),
        tests.len() > 0,
        0 <= percent < 100,
        0 <= i,
    ensures
        is_percentile(
            rounded(interpolated(ascending_durations(tests, order), percent), 1_000_000),
            tests,
            percent,
            i,
            low,
            high,
        ),
{
    let sorted = ascending_durations(tests, order);
    let n = tests.len() as int;
    let at = percent * (n - 1);
    let way = at - 100 * i;
    if 0 <= way < 100 && is_in_place(tests, i, low) && (way > 0 ==> is_in_place(tests, i + 1, high)) {
        assert(at / 100 == i && at % 100 == way);
        assert(at <= 99 * (n - 1) && at >= 0) by (nonlinear_arith)
            requires
                0 <= percent < 100,
                n >= 1,
                at == percent * (n - 1),
        ;
        sorted_is_in_place(tests, order, i);
        places_are_unique(tests, i, low, sorted[i] as int);
        if way > 0 {
            sorted_is_in_place(tests, order, i + 1);
            places_are_unique(tests, i + 1, high, sorted[i + 1] as int);
        } else {
            assert(high * way == 0) by (nonlinear_arith)
                requires
                    way == 0,
            ;
        }
        rounded_is_rounded(interpolated(sorted, percent), 1_000_000);
        assert(low * (100 - way) + high * way == interpolated(sorted, percent)) by {
            if way == 0 {
                assert(low * (100 - way) == 100 * low) by (nonlinear_arith)
                    requires
                        way == 0,
                ;
            }
        }
    }
}

/// The percentiles stand where they should among the durations.
pub proof fn percentiles_stand_in_place(
    r: DurationAnalysis,
    tests: Seq<TimedTest>,
    order: Seq<int>,
    most: int,
    i: int,
    low: int,
    high: int,
)
    requires
        is_ranking(duration_keys(tests), order),
        is_analysis(r, tests, order, most),
        tests.len() > 0,
        0 <= i,
    ensures
        is_percentile(r.p50 as int, tests, 50, i, low, high),
        is_percentile(r.p75 as int, tests, 75, i, low, high),
        is_percentile(r.p90 as int, tests, 90, i, low, high),
        is_percentile(r.p95 as int, tests, 95, i, low, high),
        is_percentile(r.p99 as int, tests, 99, i, low, high),
{
    interpolation_is_the_percentile(tests, order, 50, i, low, high);
    interpolation_is_the_percentile(tests, order, 75, i, low, high);
    interpolation_is_the_percentile(tests, order, 90, i, low, high);
    interpolation_is_the_percentile(tests, order, 95, i, low, high);
    interpolation_is_the_percentile(tests, order, 99, i, low, high);
}

proof fn sums_are_totals(sums: Seq<int>, tests: Seq<TimedTest>, n: int)
    requires
        are_sums(sums, tests),
        0 <= n <= tests.len(),
    ensures
        total_duration(tests, n) == sums[n],
    decreases n,
{
    if n > 0 {
        sums_are_totals(sums, tests, n - 1);
        assert(sums[(n - 1) + 1] == sums[n - 1] + tests[n - 1].2);
    }
}

/// The mean is the sum of the durations over their number, in hundredths of a millisecond.
pub proof fn the_mean_divides_the_sum(
    r: DurationAnalysis,
    tests: Seq<TimedTest>,
    order: Seq<int>,
    most: int,
    sums: Seq<int>,
)
    requires
        is_analysis(r, tests, order, most),
        are_sums(sums, tests),
    ensures
        tests.len() == 0 ==> r.mean == 0,
        tests.len() > 0 ==> is_rounded(
            r.mean as int,
            sums[tests.len() as int],
            10_000 * tests.len() as int,
        ),
{
    let n = tests.len() as int;
    if n > 0 {
        sums_are_totals(sums, tests, n);
        rounded_is_rounded(total_duration(tests, n), n * 10_000);
    }
}

} // verus!
