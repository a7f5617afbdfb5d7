//! Flaky test detection.
//!
//! A test is flaky when its outcome keeps changing between runs, or when it fails with different
//! error messages.
use vstd::prelude::*;
use vstd::hash_map::StringHashMap;
use vstd::hash_set::StringHashSet;

use crate::cluster::{is_normalization, normalize_error_message, normalized, Share};
use crate::ranking::{arranged, is_ranking, rank_desc};
use crate::text::{opt_text, same};

verus! {

/// One execution of a test in the recorded history.
pub struct HistoricalTest {
    pub name: String,
    pub status: String,
    /// In nanoseconds.
    pub duration: u64,
    pub file_path: String,
    pub run_id: String,
    pub started_at: String,
    pub error_message: Option<String>,
}

/// The finding on one flaky test.
pub struct FlakyTestResult {
    pub test_name: String,
    pub file_path: String,
    /// Outcome changes over the number of chances to change.
    pub flip_rate: Share,
    pub flip_count: u32,
    pub total_runs: u32,
    /// In hundredths, from 0 to 100.
    pub composite_score: u32,
    pub last_flipped_at: Option<String>,
}

/// Fewest executions that allow a judgement.
pub const MIN_SAMPLE_SIZE: usize = 5;

/// Distinct failure messages that make a test flaky whatever its outcomes.
pub const MIN_DISTINCT_FAILURE_PATTERNS: usize = 2;

/// Distinct failure messages beyond which more make no difference.
pub const PATTERN_VARIANCE_CAP: usize = 5;

// ---------------------------------------------------------------------------------------------
// Model
// ---------------------------------------------------------------------------------------------
/// Whether an execution passed or failed. Others say nothing about flakiness.
pub open spec fn is_decided(t: HistoricalTest) -> bool {
    t.status@ == "passed"@ || t.status@ == "failed"@
}

/// The decided executions of the test `name` among the first `n`, in order.
pub open spec fn runs_of(h: Seq<HistoricalTest>, name: Seq<char>, n: int) -> Seq<int>
    decreases n,
{
    if n <= 0 {
        Seq::empty()
    } else if is_decided(h[n - 1]) && h[n - 1].name@ == name {
        runs_of(h, name, n - 1).push(n - 1)
    } else {
        runs_of(h, name, n - 1)
    }
}

/// How often the outcome changes from one execution in `r` to the next.
pub open spec fn flips(h: Seq<HistoricalTest>, r: Seq<int>) -> nat
    decreases r.len(),
{
    if r.len() < 2 {
        0
    } else {
        flips(h, r.drop_last()) + if h[r.last()].status@ != h[r[r.len() - 2]].status@ {
            1nat
        } else {
            0nat
        }
    }
}

/// When the outcome last changed.
pub open spec fn last_flip(h: Seq<HistoricalTest>, r: Seq<int>) -> Option<Seq<char>>
    decreases r.len(),
{
    if r.len() < 2 {
        None
    } else if h[r.last()].status@ != h[r[r.len() - 2]].status@ {
        Some(h[r.last()].started_at@)
    } else {
        last_flip(h, r.drop_last())
    }
}

/// How many executions in `r` failed.
pub open spec fn failed_count(h: Seq<HistoricalTest>, r: Seq<int>) -> nat
    decreases r.len(),
{
    if r.len() == 0 {
        0
    } else {
        failed_count(h, r.drop_last()) + if h[r.last()].status@ == "failed"@ {
            1nat
        } else {
            0nat
        }
    }
}

/// The latest file that an execution in `r` names; empty where none does.
pub open spec fn latest_file(h: Seq<HistoricalTest>, r: Seq<int>) -> Seq<char>
    decreases r.len(),
{
    if r.len() == 0 {
        Seq::empty()
    } else if h[r.last()].file_path@.len() > 0 {
        h[r.last()].file_path@
    } else {
        latest_file(h, r.drop_last())
    }
}

/// The nonempty fingerprints of the failures in `r`.
pub open spec fn failure_patterns(
    h: Seq<HistoricalTest>,
    prints: Seq<String>,
    r: Seq<int>,
) -> Set<Seq<char>>
    decreases r.len(),
{
    if r.len() == 0 {
        Set::empty()
    } else {
        let rest = failure_patterns(h, prints, r.drop_last());
        if h[r.last()].status@ == "failed"@ && prints[r.last()]@.len() > 0 {
            rest.insert(prints[r.last()]@)
        } else {
            rest
        }
    }
}

/// Whether the executions `r` of one test make it flaky: enough of them, and either one change of
/// outcome in ten chances or two distinct failure messages.
pub open spec fn is_flaky(h: Seq<HistoricalTest>, prints: Seq<String>, r: Seq<int>) -> bool {
    r.len() >= MIN_SAMPLE_SIZE && (10 * flips(h, r) >= r.len() - 1 || failure_patterns(
        h,
        prints,
        r,
    ).len() >= MIN_DISTINCT_FAILURE_PATTERNS)
}

/// What distinct failure messages contribute, in quarters.
pub open spec fn variance_quarters(patterns: nat) -> nat {
    if patterns <= 1 {
        0
    } else if patterns - 1 >= 4 {
        4
    } else {
        (patterns - 1) as nat
    }
}

/// The composite score in hundredths, halves rounded up: four tenths of the flip rate, four tenths
/// of the failure rate and two tenths of the message variance.
pub open spec fn composite(runs: nat, flips: nat, failed: nat, patterns: nat) -> nat {
    let den = runs * (runs - 1);
    let num = 40 * (flips * runs) + 40 * (failed * (runs - 1)) + 5 * (variance_quarters(patterns)
        * den);
    ((2 * num + den) / (2 * den)) as nat
}

/// The composite score of the executions `r`.
pub open spec fn score_of(h: Seq<HistoricalTest>, prints: Seq<String>, r: Seq<int>) -> nat {
    composite(
        r.len(),
        flips(h, r),
        failed_count(h, r),
        failure_patterns(h, prints, r).len(),
    )
}

/// Execution `i` is the first decided one of a test that turns out flaky.
pub open spec fn opens_flaky(h: Seq<HistoricalTest>, prints: Seq<String>, i: int) -> bool {
    &&& is_decided(h[i])
    &&& runs_of(h, h[i].name@, i).len() == 0
    &&& is_flaky(h, prints, runs_of(h, h[i].name@, h.len() as int))
}

/// The first executions of the flaky tests among the first `n`, in order.
pub open spec fn flaky_firsts(h: Seq<HistoricalTest>, prints: Seq<String>, n: int) -> Seq<int>
    decreases n,
{
    if n <= 0 {
        Seq::empty()
    } else if opens_flaky(h, prints, n - 1) {
        flaky_firsts(h, prints, n - 1).push(n - 1)
    } else {
        flaky_firsts(h, prints, n - 1)
    }
}

/// `res` reports on the test `name`.
pub open spec fn is_report(
    res: FlakyTestResult,
    h: Seq<HistoricalTest>,
    prints: Seq<String>,
    name: Seq<char>,
) -> bool {
    let r = runs_of(h, name, h.len() as int);
    &&& res.test_name@ == name
    &&& res.file_path@ == latest_file(h, r)
    &&& res.flip_count == flips(h, r)
    &&& res.total_runs == r.len()
    &&& res.flip_rate.part == flips(h, r)
    &&& res.flip_rate.whole == r.len() - 1
    &&& res.composite_score == score_of(h, prints, r)
    &&& opt_text(res.last_flipped_at) == last_flip(h, r)
}

/// The scores of all flaky tests, in the order of their first executions.
pub open spec fn flaky_scores(h: Seq<HistoricalTest>, prints: Seq<String>) -> Seq<u128> {
    let l = flaky_firsts(h, prints, h.len() as int);
    Seq::new(
        l.len(),
        |k: int| score_of(h, prints, runs_of(h, h[l[k]].name@, h.len() as int)) as u128,
    )
}

/// `out` reports on every flaky test once, highest score first.
pub open spec fn is_flaky_report(
    out: Seq<FlakyTestResult>,
    h: Seq<HistoricalTest>,
    prints: Seq<String>,
) -> bool {
    let l = flaky_firsts(h, prints, h.len() as int);
    exists|order: Seq<int>| #[trigger]
        is_ranking(flaky_scores(h, prints), order) && out.len() == l.len() && forall|k: int|
            0 <= k < l.len() ==> is_report(#[trigger] out[k], h, prints, h[l[order[k]]].name@)
}

/// `print` is the fingerprint of execution `t`.
pub open spec fn is_print(print: String, t: HistoricalTest) -> bool {
    match t.error_message {
        Some(m) => print@ == normalized(m@) && is_normalization(m@, print@),
        None => print@ == Seq::<char>::empty(),
    }
}

// ---------------------------------------------------------------------------------------------
// Laws
// ---------------------------------------------------------------------------------------------
/// An outcome changes at most once between two neighbours, and no more executions fail than there
/// are.
pub proof fn counts_bounded(h: Seq<HistoricalTest>, prints: Seq<String>, r: Seq<int>)
    ensures
        r.len() > 0 ==> flips(h, r) <= r.len() - 1,
        r.len() == 0 ==> flips(h, r) == 0,
        failed_count(h, r) <= r.len(),
        failure_patterns(h, prints, r).finite(),
        failure_patterns(h, prints, r).len() <= failed_count(h, r),
    decreases r.len(),
{
    if r.len() > 0 {
        counts_bounded(h, prints, r.drop_last());
    }
}

/// The composite score never exceeds one hundred hundredths.
pub proof fn composite_bounded(runs: nat, flips: nat, failed: nat, patterns: nat)
    requires
        runs >= 2,
        flips <= runs - 1,
        failed <= runs,
    ensures
        composite(runs, flips, failed, patterns) <= 100,
{
    let den = runs * (runs - 1);
    let v = variance_quarters(patterns);
    let num = 40 * (flips * runs) + 40 * (failed * (runs - 1)) + 5 * (v * den);
    assert(den >= 2) by (nonlinear_arith)
        requires
            runs >= 2,
            den == runs * (runs - 1),
    ;
    assert(flips * runs <= den) by (nonlinear_arith)
        requires
            flips <= runs - 1,
            den == runs * (runs - 1),
            runs >= 2,
    ;
    assert(failed * (runs - 1) <= den) by (nonlinear_arith)
        requires
            failed <= runs,
            den == runs * (runs - 1),
            runs >= 2,
    ;
    assert(v * den <= 4 * den) by (nonlinear_arith)
        requires
            v <= 4,
            den >= 2,
    ;
    assert((2 * num + den) / (2 * den) <= 100) by (nonlinear_arith)
        requires
            num <= 100 * den,
            den >= 2,
    ;
}

/// A test that always ends alike, and fails with one message at most, is never flaky.
pub proof fn steady_tests_are_not_flaky(h: Seq<HistoricalTest>, prints: Seq<String>, r: Seq<int>)
    requires
        flips(h, r) == 0,
        failure_patterns(h, prints, r).len() < MIN_DISTINCT_FAILURE_PATTERNS,
    ensures
        !is_flaky(h, prints, r),
{
}

// ---------------------------------------------------------------------------------------------
// Detection
// ---------------------------------------------------------------------------------------------
fn score(runs: u32, flips: u32, failed: u32, patterns: usize) -> (r: u32)
    requires
        runs >= 2,
        flips <= runs - 1,
        failed <= runs,
    ensures
        r == composite(runs as nat, flips as nat, failed as nat, patterns as nat),
        r <= 100,
{
    let v: u128 = if patterns <= 1 {
        0
    } else if patterns >= PATTERN_VARIANCE_CAP {
        4
    } else {
        (patterns - 1) as u128
    };
    let n: u128 = runs as u128;
    let f: u128 = flips as u128;
    let k: u128 = failed as u128;
    proof {
        composite_bounded(runs as nat, flips as nat, failed as nat, patterns as nat);
        let d = n * (n - 1);
        assert(2 <= d <= 0xffff_ffff * 0xffff_ffff) by (nonlinear_arith)
            requires
                2 <= n <= 0xffff_ffff,
                d == n * (n - 1),
        ;
        assert(f * n <= 0xffff_ffff * 0xffff_ffff) by (nonlinear_arith)
            requires
                0 <= f <= 0xffff_ffff,
                2 <= n <= 0xffff_ffff,
        ;
        assert(k * (n - 1) <= 0xffff_ffff * 0xffff_ffff) by (nonlinear_arith)
            requires
                0 <= k <= 0xffff_ffff,
                2 <= n <= 0xffff_ffff,
        ;
        assert(v * d <= 4 * 0xffff_ffff * 0xffff_ffff) by (nonlinear_arith)
            requires
                0 <= v <= 4,
                2 <= d <= 0xffff_ffff * 0xffff_ffff,
        ;
    }
    let den: u128 = n * (n - 1);
    let num: u128 = 40 * (f * n) + 40 * (k * (n - 1)) + 5 * (v * den);
    ((2 * num + den) / (2 * den)) as u32
}

/// What the executions of one test add up to.
struct Tally {
    flips: u32,
    failed: u32,
    patterns: usize,
    file: String,
    last_flip: Option<String>,
}

fn tally(h: &Vec<HistoricalTest>, prints: &Vec<String>, runs: &Vec<usize>) -> (t: Tally)
    requires
        h@.len() == prints@.len(),
        runs@.len() <= u32::MAX,
        forall|k: int| 0 <= k < runs@.len() ==> #[trigger] runs@[k] < h@.len(),
    ensures
        ({
            let r = positions(runs@);
            &&& t.flips == flips(h@, r)
            &&& t.failed == failed_count(h@, r)
            &&& t.patterns == failure_patterns(h@, prints@, r).len()
            &&& t.file@ == latest_file(h@, r)
            &&& opt_text(t.last_flip) == last_flip(h@, r)
        }),
{
    let ghost all = positions(runs@);
    let mut changes: u32 = 0;
    let mut failed: u32 = 0;
    let mut seen = StringHashSet::new();
    let mut file = String::new();
    let mut last: Option<String> = None;
    let mut k: usize = 0;
    assert(all.take(0) =~= Seq::<int>::empty());
    assert(file@ =~= Seq::<char>::empty());
    while k < runs.len()
        invariant
            0 <= k <= runs@.len() <= u32::MAX,
            h@.len() == prints@.len(),
            all == positions(runs@),
            forall|j: int| 0 <= j < runs@.len() ==> #[trigger] runs@[j] < h@.len(),
            changes == flips(h@, all.take(k as int)),
            changes <= k,
            failed == failed_count(h@, all.take(k as int)),
            failed <= k,
            seen@ == failure_patterns(h@, prints@, all.take(k as int)),
            file@ == latest_file(h@, all.take(k as int)),
            opt_text(last) == last_flip(h@, all.take(k as int)),
        decreases runs@.len() - k,
    {
        let i: usize = runs[k];
        let t = &h[i];
        let ghost now = all.take(k + 1);
        assert(now.drop_last() =~= all.take(k as int));
        assert(now.last() == i);
        if k > 0 {
            let before: usize = runs[k - 1];
            assert(now[now.len() - 2] == before);
            if !same(t.status.as_str(), h[before].status.as_str()) {
                changes = changes + 1;
                last = Some(t.started_at.clone());
            }
        }
        if same(t.status.as_str(), "failed") {
            failed = failed + 1;
            if !prints[i].as_str().is_empty() {
                seen.insert(prints[i].clone());
            }
        }
        if !t.file_path.as_str().is_empty() {
            file = t.file_path.clone();
        }
        k += 1;
    }
    assert(all.take(k as int) =~= all);
    Tally { flips: changes, failed, patterns: seen.len(), file, last_flip: last }
}

/// Positions as numbers.
pub open spec fn positions(v: Seq<usize>) -> Seq<int> {
    Seq::new(v.len(), |k: int| v[k] as int)
}

/// Group `g` holds the executions of one test, whose first execution is `first`.
spec fn is_group(h: Seq<HistoricalTest>, g: Seq<usize>, first: int, n: int) -> bool {
    &&& 0 <= first < n
    &&& is_decided(h[first])
    &&& runs_of(h, h[first].name@, first).len() == 0
    &&& positions(g) == runs_of(h, h[first].name@, n)
}

/// The first decided executions of all tests among the first `n`, in order.
spec fn firsts(h: Seq<HistoricalTest>, n: int) -> Seq<int>
    decreases n,
{
    if n <= 0 {
        Seq::empty()
    } else if is_decided(h[n - 1]) && runs_of(h, h[n - 1].name@, n - 1).len() == 0 {
        firsts(h, n - 1).push(n - 1)
    } else {
        firsts(h, n - 1)
    }
}

proof fn runs_in_range(h: Seq<HistoricalTest>, name: Seq<char>, n: int)
    requires
        0 <= n <= h.len(),
    ensures
        runs_of(h, name, n).len() <= n,
        forall|k: int| 0 <= k < runs_of(h, name, n).len() ==> 0 <= #[trigger] runs_of(h, name, n)[k] < n,
    decreases n,
{
    if n > 0 {
        runs_in_range(h, name, n - 1);
    }
}

/// Sorts the decided executions by test, tests in the order of their first executions.
fn group_by_name(h: &Vec<HistoricalTest>) -> (groups: Vec<Vec<usize>>)
    ensures
        groups@.len() == firsts(h@, h@.len() as int).len(),
        forall|g: int|
            0 <= g < groups@.len() ==> is_group(
                h@,
                #[trigger] groups@[g]@,
                firsts(h@, h@.len() as int)[g],
                h@.len() as int,
            ),
{
    let mut groups: Vec<Vec<usize>> = Vec::new();
    let mut index: StringHashMap<usize> = StringHashMap::new();
    let mut i: usize = 0;
    while i < h.len()
        invariant
            0 <= i <= h@.len(),
            groups@.len() == firsts(h@, i as int).len(),
            forall|g: int|
                0 <= g < groups@.len() ==> is_group(
                    h@,
                    #[trigger] groups@[g]@,
                    firsts(h@, i as int)[g],
                    i as int,
                ),
            forall|name: Seq<char>| #[trigger]
                index@.contains_key(name) <==> runs_of(h@, name, i as int).len() > 0,
            forall|name: Seq<char>| #[trigger]
                index@.contains_key(name) ==> {
                    &&& index@[name] < groups@.len()
                    &&& h@[firsts(h@, i as int)[index@[name] as int]].name@ == name
                },
            forall|g: int|
                0 <= g < groups@.len() ==> {
                    let name = h@[#[trigger] firsts(h@, i as int)[g]].name@;
                    index@.contains_key(name) && index@[name] == g
                },
        decreases h@.len() - i,
    {
        let t = &h[i];
        let ghost f0 = firsts(h@, i as int);
        let ghost g0 = groups@;
        let ghost ix0 = index@;
        if same(t.status.as_str(), "passed") || same(t.status.as_str(), "failed") {
            let known: Option<usize> = match index.get(t.name.as_str()) {
                Some(g) => Some(*g),
                None => None,
            };
            match known {
                Some(g) => {
                    let ghost old_runs = groups@[g as int]@;
                    groups[g].push(i);
                    proof {
                        assert(firsts(h@, i + 1) == f0);
                        assert(groups@[g as int]@ == old_runs.push(i));
                        assert(positions(old_runs.push(i)) =~= positions(old_runs).push(i as int));
                        assert forall|q: int| 0 <= q < groups@.len() implies is_group(
                            h@,
                            #[trigger] groups@[q]@,
                            f0[q],
                            i + 1,
                        ) by {
                            assert(is_group(h@, g0[q]@, f0[q], i as int));
                            if q != g {
                                assert(h@[f0[q]].name@ != t.name@);
                            }
                        }
                    }
                },
                None => {
                    let one: Vec<usize> = vec![i];
                    groups.push(one);
                    index.insert(t.name.clone(), groups.len() - 1);
                    proof {
                        assert(firsts(h@, i + 1) == f0.push(i as int));
                        assert(runs_of(h@, t.name@, i as int) =~= Seq::<int>::empty());
                        assert(positions(one@) =~= runs_of(h@, t.name@, i + 1));
                        assert forall|q: int| 0 <= q < groups@.len() implies is_group(
                            h@,
                            #[trigger] groups@[q]@,
                            firsts(h@, i + 1)[q],
                            i + 1,
                        ) by {
                            if q < g0.len() {
                                assert(is_group(h@, g0[q]@, f0[q], i as int));
                                assert(ix0.contains_key(h@[f0[q]].name@));
                            }
                        }
                        assert forall|q: int| 0 <= q < groups@.len() implies ({
                            let name = h@[#[trigger] firsts(h@, i + 1)[q]].name@;
                            index@.contains_key(name) && index@[name] == q
                        }) by {
                            if q < g0.len() {
                                let name = h@[f0[q]].name@;
                                assert(ix0.contains_key(name) && ix0[name] == q);
                            }
                        }
                    }
                },
            }
        } else {
            proof {
                assert(firsts(h@, i + 1) == f0);
                assert forall|q: int| 0 <= q < groups@.len() implies is_group(
                    h@,
                    #[trigger] groups@[q]@,
                    f0[q],
                    i + 1,
                ) by {
                    assert(is_group(h@, g0[q]@, f0[q], i as int));
                }
            }
        }
        i += 1;
    }
    groups
}

/// The flaky ones among the first `g` tests.
spec fn flaky_among(
    h: Seq<HistoricalTest>,
    prints: Seq<String>,
    first: Seq<int>,
    g: int,
) -> Seq<int>
    decreases g,
{
    if g <= 0 {
        Seq::empty()
    } else if is_flaky(h, prints, runs_of(h, h[first[g - 1]].name@, h.len() as int)) {
        flaky_among(h, prints, first, g - 1).push(first[g - 1])
    } else {
        flaky_among(h, prints, first, g - 1)
    }
}

proof fn flaky_among_prefix(
    h: Seq<HistoricalTest>,
    prints: Seq<String>,
    a: Seq<int>,
    b: Seq<int>,
    g: int,
)
    requires
        g <= a.len(),
        g <= b.len(),
        forall|k: int| 0 <= k < g ==> a[k] == b[k],
    ensures
        flaky_among(h, prints, a, g) == flaky_among(h, prints, b, g),
    decreases g,
{
    if g > 0 {
        flaky_among_prefix(h, prints, a, b, g - 1);
    }
}

proof fn flaky_among_firsts(h: Seq<HistoricalTest>, prints: Seq<String>, n: int)
    requires
        0 <= n <= h.len(),
    ensures
        flaky_among(h, prints, firsts(h, n), firsts(h, n).len() as int) == flaky_firsts(
            h,
            prints,
            n,
        ),
    decreases n,
{
    if n > 0 {
        flaky_among_firsts(h, prints, n - 1);
        let a = firsts(h, n - 1);
        let b = firsts(h, n);
        if is_decided(h[n - 1]) && runs_of(h, h[n - 1].name@, n - 1).len() == 0 {
            flaky_among_prefix(h, prints, a, b, a.len() as int);
        }
    }
}

/// Finds the flaky tests in `history`, which is in chronological order; `prints` holds the
/// fingerprint of each execution's error message, empty where there is none. The highest score
/// comes first.
pub fn detect_from_fingerprints(history: &Vec<HistoricalTest>, prints: &Vec<String>) -> (out: Vec<
    FlakyTestResult,
>)
    requires
        history@.len() == prints@.len(),
        history@.len() <= u32::MAX,
    ensures
        is_flaky_report(out@, history@, prints@),
{
    let groups = group_by_name(history);
    let ghost h = history@;
    let ghost n = h.len() as int;
    let ghost fs = firsts(h, n);
    let mut raw: Vec<FlakyTestResult> = Vec::new();
    let mut keys: Vec<u128> = Vec::new();
    let mut g: usize = 0;
    while g < groups.len()
        invariant
            0 <= g <= groups@.len(),
            h == history@,
            n == h.len(),
            h.len() == prints@.len(),
            h.len() <= u32::MAX,
            fs == firsts(h, n),
            groups@.len() == fs.len(),
            forall|q: int| 0 <= q < groups@.len() ==> is_group(h, #[trigger] groups@[q]@, fs[q], n),
            raw@.len() == keys@.len() == flaky_among(h, prints@, fs, g as int).len(),
            forall|k: int|
                0 <= k < raw@.len() ==> is_report(
                    #[trigger] raw@[k],
                    h,
                    prints@,
                    h[flaky_among(h, prints@, fs, g as int)[k]].name@,
                ),
            forall|k: int|
                0 <= k < raw@.len() ==> #[trigger] keys@[k] == score_of(
                    h,
                    prints@,
                    runs_of(h, h[flaky_among(h, prints@, fs, g as int)[k]].name@, n),
                ),
        decreases groups@.len() - g,
    {
        let runs = &groups[g];
        let ghost name = h[fs[g as int]].name@;
        let ghost r = runs_of(h, name, n);
        let ghost l0 = flaky_among(h, prints@, fs, g as int);
        proof {
            assert(is_group(h, groups@[g as int]@, fs[g as int], n));
            runs_in_range(h, name, n);
            assert forall|k: int| 0 <= k < runs@.len() implies #[trigger] runs@[k] < h.len() by {
                assert(positions(runs@)[k] == r[k]);
            }
            assert(r.len() == runs@.len());
            counts_bounded(h, prints@, r);
            assert(flaky_among(h, prints@, fs, g + 1) == if is_flaky(h, prints@, r) {
                l0.push(fs[g as int])
            } else {
                l0
            });
            assert(positions(runs@) == r);
        }
        if runs.len() >= MIN_SAMPLE_SIZE {
            let t = tally(history, prints, runs);
            let total: u32 = runs.len() as u32;
            if 10 * (t.flips as u64) >= (total - 1) as u64 || t.patterns
                >= MIN_DISTINCT_FAILURE_PATTERNS {
                let points: u32 = score(total, t.flips, t.failed, t.patterns);
                let first: usize = runs[0];
                proof {
                    assert(positions(runs@)[0] == first);
                    first_run_is_first(h, fs[g as int], n);
                }
                let res = FlakyTestResult {
                    test_name: history[first].name.clone(),
                    file_path: t.file,
                    flip_rate: Share { part: t.flips as usize, whole: (total - 1) as usize },
                    flip_count: t.flips,
                    total_runs: total,
                    composite_score: points,
                    last_flipped_at: t.last_flip,
                };
                raw.push(res);
                keys.push(points as u128);
                assert(is_report(res, h, prints@, name));
            }
        }
        g += 1;
    }
    proof {
        flaky_among_firsts(h, prints@, n);
        assert(keys@ =~= flaky_scores(h, prints@));
    }
    let ghost rs = raw@;
    let out = rank_desc(raw, keys);
    proof {
        let l = flaky_firsts(h, prints@, n);
        let order = choose|order: Seq<int>| #[trigger]
            is_ranking(flaky_scores(h, prints@), order) && out@ == arranged(rs, order);
        assert(is_ranking(flaky_scores(h, prints@), order));
        assert forall|k: int| 0 <= k < l.len() implies is_report(
            #[trigger] out@[k],
            h,
            prints@,
            h[l[order[k]]].name@,
        ) by {
            assert(out@[k] == rs[order[k]]);
        }
    }
    out
}

proof fn first_run_is_first(h: Seq<HistoricalTest>, first: int, n: int)
    requires
        0 <= first < n <= h.len(),
        is_decided(h[first]),
        runs_of(h, h[first].name@, first).len() == 0,
    ensures
        runs_of(h, h[first].name@, n).len() > 0,
        runs_of(h, h[first].name@, n)[0] == first,
    decreases n,
{
    if n > first + 1 {
        first_run_is_first(h, first, n - 1);
    } else {
        assert(runs_of(h, h[first].name@, first) =~= Seq::<int>::empty());
    }
}

/// The fingerprint of each execution's error message.
pub fn history_prints(history: &Vec<HistoricalTest>) -> (prints: Vec<String>)
    ensures
        prints@.len() == history@.len(),
        forall|i: int| 0 <= i < history@.len() ==> is_print(#[trigger] prints@[i], history@[i]),
{
    let mut prints: Vec<String> = Vec::new();
    let mut i: usize = 0;
    while i < history.len()
        invariant
            0 <= i <= history@.len(),
            prints@.len() == i,
            forall|k: int| 0 <= k < i ==> is_print(#[trigger] prints@[k], history@[k]),
        decreases history@.len() - i,
    {
        let print = match &history[i].error_message {
            Some(m) => normalize_error_message(m.as_str()),
            None => String::new(),
        };
        assert(history@[i as int].error_message is None ==> print@ =~= Seq::<char>::empty());
        prints.push(print);
        i += 1;
    }
    prints
}

/// Finds the flaky tests in `history`, which is in chronological order. The highest score comes
/// first.
pub fn detect_flaky_tests(history: &Vec<HistoricalTest>) -> (out: Vec<FlakyTestResult>)
    requires
        history@.len() <= u32::MAX,
    ensures
        exists|prints: Seq<String>|
            prints.len() == history@.len() && (forall|i: int|
                0 <= i < history@.len() ==> is_print(#[trigger] prints[i], history@[i]))
                && #[trigger] is_flaky_report(out@, history@, prints),
{
    let prints = history_prints(history);
    detect_from_fingerprints(history, &prints)
}

} // verus!
