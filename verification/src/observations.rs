//! Observations that a test is affected, and how several of them combine.
//!
//! A confidence is held in units of 10^-18: certainty is `CERTAIN`.
use vstd::prelude::*;
use vstd::hash_map::StringHashMap;

use crate::ranking::{arranged, is_ranking, rank_desc, reversed};
use crate::text::same;

verus! {

/// The confidence of what is certain.
pub const CERTAIN: u64 = 1_000_000_000_000_000_000;

/// Most affected tests that are reported.
pub const RESULT_CAP: usize = 100;

/// What one strategy contributed to a finding.
pub struct AffectedTestSignal {
    pub strategy: String,
    pub confidence: u64,
}

/// A test file that a change affects.
pub struct AffectedTest {
    pub test_file: String,
    pub confidence: u64,
    /// The strategy with the highest confidence.
    pub strategy: String,
    /// The changed file that this strategy started from.
    pub source_file: String,
    /// What each strategy contributed; empty in a single observation.
    pub signals: Vec<AffectedTestSignal>,
}

/// What an `AffectedTest` says.
pub ghost struct Finding {
    pub test_file: Seq<char>,
    pub confidence: u64,
    pub strategy: Seq<char>,
    pub source_file: Seq<char>,
    pub signals: Seq<(Seq<char>, u64)>,
}

impl DeepView for AffectedTestSignal {
    type V = (Seq<char>, u64);

    open spec fn deep_view(&self) -> (Seq<char>, u64) {
        (self.strategy@, self.confidence)
    }
}

impl DeepView for AffectedTest {
    type V = Finding;

    open spec fn deep_view(&self) -> Finding {
        Finding {
            test_file: self.test_file@,
            confidence: self.confidence,
            strategy: self.strategy@,
            source_file: self.source_file@,
            signals: self.signals.deep_view(),
        }
    }
}

/// A single observation.
pub open spec fn observed(
    test_file: Seq<char>,
    confidence: u64,
    strategy: Seq<char>,
    source_file: Seq<char>,
) -> Finding {
    Finding { test_file, confidence, strategy, source_file, signals: Seq::empty() }
}

/// A single observation.
pub fn observation(test_file: &str, confidence: u64, strategy: &str, source_file: &str) -> (r:
    AffectedTest)
    ensures
        r.deep_view() == observed(test_file@, confidence, strategy@, source_file@),
{
    let signals: Vec<AffectedTestSignal> = Vec::new();
    assert(signals.deep_view() =~= Seq::<(Seq<char>, u64)>::empty());
    AffectedTest {
        test_file: test_file.to_owned(),
        confidence,
        strategy: strategy.to_owned(),
        source_file: source_file.to_owned(),
        signals,
    }
}

// ---------------------------------------------------------------------------------------------
// Noisy-OR
// ---------------------------------------------------------------------------------------------
/// `c`, or certainty where it is more.
pub open spec fn at_most_certain(c: u64) -> int {
    if c > CERTAIN {
        CERTAIN as int
    } else {
        c as int
    }
}

/// The chance that all of the first `n` observations are mistaken, if they are independent.
pub open spec fn all_mistaken(confidences: Seq<u64>, n: int) -> int
    decreases n,
{
    if n <= 0 {
        CERTAIN as int
    } else {
        all_mistaken(confidences, n - 1) * (CERTAIN - at_most_certain(confidences[n - 1])) / CERTAIN
            as int
    }
}

/// The combined confidence of independent observations.
pub open spec fn noisy_or(confidences: Seq<u64>) -> int {
    CERTAIN - all_mistaken(confidences, confidences.len() as int)
}

/// A further observation never makes it likelier that all are mistaken, and bounds that chance by
/// its own.
pub proof fn mistaken_shrinks(confidences: Seq<u64>, n: int)
    requires
        0 < n <= confidences.len(),
    ensures
        0 <= all_mistaken(confidences, n) <= all_mistaken(confidences, n - 1) <= CERTAIN,
        all_mistaken(confidences, n) <= CERTAIN - at_most_certain(confidences[n - 1]),
    decreases n,
{
    if n > 1 {
        mistaken_shrinks(confidences, n - 1);
    }
    let p = all_mistaken(confidences, n - 1);
    let q = CERTAIN - at_most_certain(confidences[n - 1]);
    let s = CERTAIN as int;
    assert(0 <= p * q) by (nonlinear_arith)
        requires
            p >= 0,
            q >= 0,
    ;
    assert(p * q / s <= p && p * q / s <= q && 0 <= p * q / s) by (nonlinear_arith)
        requires
            0 <= p <= s,
            0 <= q <= s,
            s > 0,
    ;
}

/// Combining never loses confidence: the result is at least as high as each observation, and never
/// exceeds certainty.
pub proof fn combining_never_loses(confidences: Seq<u64>, i: int)
    requires
        0 <= i < confidences.len(),
    ensures
        at_most_certain(confidences[i]) <= noisy_or(confidences) <= CERTAIN,
{
    mistaken_below(confidences, i, confidences.len() as int);
}

proof fn mistaken_below(confidences: Seq<u64>, i: int, n: int)
    requires
        0 <= i < n <= confidences.len(),
    ensures
        0 <= all_mistaken(confidences, n) <= CERTAIN - at_most_certain(confidences[i]),
    decreases n,
{
    mistaken_shrinks(confidences, n);
    if i < n - 1 {
        mistaken_below(confidences, i, n - 1);
    }
}

/// A single observation passes through unchanged.
pub proof fn single_observation_passes_through(c: u64)
    ensures
        noisy_or(seq![c]) == at_most_certain(c),
{
    let q = CERTAIN - at_most_certain(c);
    reveal_with_fuel(all_mistaken, 2);
    assert(CERTAIN * q / (CERTAIN as int) == q) by (nonlinear_arith);
}

// ---------------------------------------------------------------------------------------------
// Signals
// ---------------------------------------------------------------------------------------------
/// The strategies of the first `n` findings, each once, in order of appearance.
pub open spec fn strategies(obs: Seq<Finding>, n: int) -> Seq<Seq<char>>
    decreases n,
{
    if n <= 0 {
        Seq::empty()
    } else {
        let known = strategies(obs, n - 1);
        if known.contains(obs[n - 1].strategy) {
            known
        } else {
            known.push(obs[n - 1].strategy)
        }
    }
}

/// The highest confidence of a strategy among the first `n` findings.
pub open spec fn best_of(obs: Seq<Finding>, strategy: Seq<char>, n: int) -> u64
    decreases n,
{
    if n <= 0 {
        0
    } else {
        let best = best_of(obs, strategy, n - 1);
        if obs[n - 1].strategy == strategy && obs[n - 1].confidence > best {
            obs[n - 1].confidence
        } else {
            best
        }
    }
}

/// Each strategy of `obs` with its highest confidence, in order of appearance.
pub open spec fn raw_signals(obs: Seq<Finding>) -> Seq<(Seq<char>, u64)> {
    let names = strategies(obs, obs.len() as int);
    Seq::new(names.len(), |k: int| (names[k], best_of(obs, names[k], obs.len() as int)))
}

/// The confidences of signals, as ranking keys.
pub open spec fn signal_keys(signals: Seq<(Seq<char>, u64)>) -> Seq<u128> {
    Seq::new(signals.len(), |k: int| signals[k].1 as u128)
}

/// `out` holds the signals of `obs`, strongest first.
pub open spec fn is_signals(out: Seq<(Seq<char>, u64)>, obs: Seq<Finding>) -> bool {
    exists|order: Seq<int>| #[trigger]
        is_ranking(signal_keys(raw_signals(obs)), order) && out == arranged(raw_signals(obs), order)
}

/// The distinct strategies among `observations`, each with its highest confidence, strongest
/// first.
pub fn collect_signals(observations: &Vec<AffectedTest>) -> (out: Vec<AffectedTestSignal>)
    ensures
        is_signals(out.deep_view(), observations.deep_view()),
{
    let ghost obs = observations.deep_view();
    let mut names: Vec<String> = Vec::new();
    let mut best: Vec<u64> = Vec::new();
    let mut n: usize = 0;
    assert(names.deep_view() =~= strategies(obs, 0));
    while n < observations.len()
        invariant
            0 <= n <= observations@.len(),
            obs == observations.deep_view(),
            names.deep_view() == strategies(obs, n as int),
            best@.len() == names@.len(),
            names.deep_view().no_duplicates(),
            forall|k: int|
                0 <= k < best@.len() ==> #[trigger] best@[k] == best_of(
                    obs,
                    names.deep_view()[k],
                    n as int,
                ),
            forall|s: Seq<char>|
                !names.deep_view().contains(s) ==> #[trigger] best_of(obs, s, n as int) == 0,
        decreases observations@.len() - n,
    {
        let o = &observations[n];
        let ghost view = names.deep_view();
        assert(obs[n as int] == o.deep_view());
        let mut k: usize = 0;
        while k < names.len() && !same(names[k].as_str(), o.strategy.as_str())
            invariant
                0 <= k <= names@.len(),
                view == names.deep_view(),
                forall|j: int| 0 <= j < k ==> #[trigger] view[j] != o.strategy@,
            decreases names@.len() - k,
        {
            assert(view[k as int] == names@[k as int]@);
            k += 1;
        }
        if k < names.len() {
            assert(view[k as int] == names@[k as int]@);
            assert(view.contains(o.strategy@));
            if o.confidence > best[k] {
                best.set(k, o.confidence);
            }
        } else {
            assert(!view.contains(o.strategy@));
            assert(best_of(obs, o.strategy@, n as int) == 0);
            names.push(o.strategy.clone());
            best.push(o.confidence);
            proof {
                let next = names.deep_view();
                assert(next =~= view.push(o.strategy@));
                assert(next[view.len() as int] == o.strategy@);
            }
        }
        proof {
            let next = names.deep_view();
            assert forall|s: Seq<char>| !next.contains(s) implies #[trigger] best_of(obs, s, n + 1)
                == 0 by {
                if view.contains(s) {
                    let j = choose|j: int| 0 <= j < view.len() && view[j] == s;
                    assert(next[j] == s);
                }
                assert(best_of(obs, s, n as int) == 0);
                assert(next.contains(o.strategy@));
            }
        }
        n += 1;
    }
    let ghost raw = raw_signals(obs);
    let mut list: Vec<AffectedTestSignal> = Vec::new();
    let mut keys: Vec<u128> = Vec::new();
    let mut k: usize = 0;
    while k < names.len()
        invariant
            0 <= k <= names@.len(),
            best@.len() == names@.len() == raw.len(),
            raw == raw_signals(obs),
            obs == observations.deep_view(),
            names.deep_view() == strategies(obs, obs.len() as int),
            forall|j: int|
                0 <= j < best@.len() ==> #[trigger] best@[j] == best_of(
                    obs,
                    names.deep_view()[j],
                    obs.len() as int,
                ),
            list@.len() == k,
            keys@.len() == k,
            forall|j: int| 0 <= j < k ==> (#[trigger] list@[j]).deep_view() == raw[j],
            forall|j: int| 0 <= j < k ==> #[trigger] keys@[j] == raw[j].1,
        decreases names@.len() - k,
    {
        assert(names.deep_view()[k as int] == names@[k as int]@);
        list.push(AffectedTestSignal { strategy: names[k].clone(), confidence: best[k] });
        keys.push(best[k] as u128);
        k += 1;
    }
    assert(keys@ =~= signal_keys(raw));
    let ghost was = list@;
    let out = rank_desc(list, keys);
    proof {
        let order = choose|order: Seq<int>| #[trigger]
            is_ranking(signal_keys(raw), order) && out@ == arranged(was, order);
        assert(is_ranking(signal_keys(raw), order));
        assert(out.deep_view() =~= arranged(raw, order));
    }
    out
}

// ---------------------------------------------------------------------------------------------
// Combination
// ---------------------------------------------------------------------------------------------
/// The confidences of findings.
pub open spec fn confidences(obs: Seq<Finding>) -> Seq<u64> {
    Seq::new(obs.len(), |k: int| obs[k].confidence)
}

/// The confidences of findings, as ranking keys.
pub open spec fn finding_keys(obs: Seq<Finding>) -> Seq<u128> {
    Seq::new(obs.len(), |k: int| obs[k].confidence as u128)
}

/// `r` combines the observations `obs` of one test file: it is attributed to the strongest, with
/// the noisy-OR of all confidences and the contribution of each strategy.
pub open spec fn is_combination(r: Finding, obs: Seq<Finding>) -> bool {
    exists|order: Seq<int>| #[trigger]
        is_ranking(finding_keys(obs), order) && {
            let sorted = arranged(obs, order);
            &&& r.test_file == sorted[0].test_file
            &&& r.strategy == sorted[0].strategy
            &&& r.source_file == sorted[0].source_file
            &&& r.confidence == noisy_or(confidences(sorted))
            &&& is_signals(r.signals, sorted)
        }
}

/// Combines the observations of one test file.
pub fn combine_noisy_or(observations: Vec<AffectedTest>) -> (r: AffectedTest)
    requires
        observations@.len() > 0,
    ensures
        is_combination(r.deep_view(), observations.deep_view()),
{
    let ghost obs = observations.deep_view();
    let mut keys: Vec<u128> = Vec::new();
    let mut k: usize = 0;
    while k < observations.len()
        invariant
            0 <= k <= observations@.len(),
            obs == observations.deep_view(),
            keys@ == finding_keys(obs).take(k as int),
        decreases observations@.len() - k,
    {
        keys.push(observations[k].confidence as u128);
        k += 1;
        assert(keys@ =~= finding_keys(obs).take(k as int));
    }
    assert(keys@ =~= finding_keys(obs));
    let ghost was = observations@;
    let sorted = rank_desc(observations, keys);
    let ghost order = choose|order: Seq<int>| #[trigger]
        is_ranking(finding_keys(obs), order) && sorted@ == arranged(was, order);
    let ghost view = arranged(obs, order);
    proof {
        assert(is_ranking(finding_keys(obs), order));
        assert(sorted.deep_view() =~= view);
    }
    let mut mistaken: u128 = CERTAIN as u128;
    k = 0;
    while k < sorted.len()
        invariant
            0 <= k <= sorted@.len(),
            view == sorted.deep_view(),
            mistaken == all_mistaken(confidences(view), k as int),
            mistaken <= CERTAIN,
        decreases sorted@.len() - k,
    {
        let c: u64 = sorted[k].confidence;
        let held: u64 = if c > CERTAIN {
            CERTAIN
        } else {
            c
        };
        let rest: u128 = (CERTAIN - held) as u128;
        proof {
            assert(confidences(view)[k as int] == c);
            mistaken_shrinks(confidences(view), k + 1);
            assert(mistaken * rest <= CERTAIN * CERTAIN) by (nonlinear_arith)
                requires
                    0 <= mistaken <= CERTAIN,
                    0 <= rest <= CERTAIN,
            ;
        }
        mistaken = mistaken * rest / CERTAIN as u128;
        k += 1;
    }
    let combined: u64 = CERTAIN - mistaken as u64;
    let signals = collect_signals(&sorted);
    let first = &sorted[0];
    proof {
        assert(view[0] == first.deep_view());
    }
    AffectedTest {
        test_file: first.test_file.clone(),
        confidence: combined,
        strategy: first.strategy.clone(),
        source_file: first.source_file.clone(),
        signals,
    }
}

/// The test files of the first `n` findings, each once, in order of appearance.
pub open spec fn files_in(obs: Seq<Finding>, n: int) -> Seq<Seq<char>>
    decreases n,
{
    if n <= 0 {
        Seq::empty()
    } else {
        let known = files_in(obs, n - 1);
        if known.contains(obs[n - 1].test_file) {
            known
        } else {
            known.push(obs[n - 1].test_file)
        }
    }
}

/// The observations of one test file among the first `n`.
pub open spec fn about(obs: Seq<Finding>, file: Seq<char>, n: int) -> Seq<Finding>
    decreases n,
{
    if n <= 0 {
        Seq::empty()
    } else if obs[n - 1].test_file == file {
        about(obs, file, n - 1).push(obs[n - 1])
    } else {
        about(obs, file, n - 1)
    }
}

/// `raw` combines, for each test file of `obs` in order of appearance, its observations.
pub open spec fn combines_all(raw: Seq<Finding>, obs: Seq<Finding>) -> bool {
    let files = files_in(obs, obs.len() as int);
    &&& raw.len() == files.len()
    &&& forall|k: int|
        0 <= k < files.len() ==> is_combination(
            #[trigger] raw[k],
            about(obs, files[k], obs.len() as int),
        )
}

/// At most `RESULT_CAP` of `list`.
pub open spec fn capped(list: Seq<Finding>) -> Seq<Finding> {
    if list.len() > RESULT_CAP {
        list.take(RESULT_CAP as int)
    } else {
        list
    }
}

/// `out` is the outcome of all the observations `obs`: one finding per test file, the most
/// confident first, up to the limit.
pub open spec fn is_outcome(out: Seq<Finding>, obs: Seq<Finding>) -> bool {
    exists|raw: Seq<Finding>, order: Seq<int>|
        combines_all(raw, obs) && is_ranking(finding_keys(raw), order) && out == capped(
            #[trigger] arranged(raw, order),
        )
}

/// A test file has observations where, and only where, it is among the observed files; and they are
/// all of that file.
pub proof fn about_is_about(obs: Seq<Finding>, file: Seq<char>, n: int)
    requires
        0 <= n <= obs.len(),
    ensures
        about(obs, file, n).len() > 0 <==> files_in(obs, n).contains(file),
        forall|k: int|
            0 <= k < about(obs, file, n).len() ==> (#[trigger] about(obs, file, n)[k]).test_file
                == file,
    decreases n,
{
    if n > 0 {
        about_is_about(obs, file, n - 1);
        let known = files_in(obs, n - 1);
        let all = files_in(obs, n);
        if known.contains(file) {
            let j = choose|j: int| 0 <= j < known.len() && known[j] == file;
            assert(all[j] == file);
        }
        if obs[n - 1].test_file == file {
            if !known.contains(file) {
                assert(all[known.len() as int] == file);
            }
        } else if all.contains(file) {
            let j = choose|j: int| 0 <= j < all.len() && all[j] == file;
            if j < known.len() {
                assert(known[j] == file);
            }
        }
        let rest = about(obs, file, n - 1);
        let whole = about(obs, file, n);
        assert forall|k: int| 0 <= k < whole.len() implies (#[trigger] whole[k]).test_file
            == file by {
            if k < rest.len() {
                assert(whole[k] == rest[k]);
            }
        }
    }
}

/// Each test file occurs once among the outcome's candidates.
pub proof fn files_are_distinct(obs: Seq<Finding>, n: int)
    ensures
        files_in(obs, n).no_duplicates(),
    decreases n,
{
    if n > 0 {
        files_are_distinct(obs, n - 1);
    }
}

/// The finding on a test file is of that test file.
pub proof fn combination_keeps_file(r: Finding, obs: Seq<Finding>, file: Seq<char>)
    requires
        obs.len() > 0,
        is_combination(r, obs),
        forall|k: int| 0 <= k < obs.len() ==> (#[trigger] obs[k]).test_file == file,
    ensures
        r.test_file == file,
{
    let order = choose|order: Seq<int>| #[trigger]
        is_ranking(finding_keys(obs), order) && r.test_file == arranged(obs, order)[0].test_file;
    assert(arranged(obs, order)[0] == obs[order[0]]);
}

/// An outcome names no test file twice, names only observed ones, and leaves one out only where
/// there are more than the limit.
pub proof fn outcome_covers_observations(out: Seq<Finding>, obs: Seq<Finding>)
    requires
        is_outcome(out, obs),
    ensures
        forall|a: int, b: int|
            0 <= a < b < out.len() ==> (#[trigger] out[a]).test_file != (
            #[trigger] out[b]).test_file,
        forall|a: int|
            0 <= a < out.len() ==> exists|i: int|
                0 <= i < obs.len() && #[trigger] obs[i].test_file == (
                #[trigger] out[a]).test_file,
        files_in(obs, obs.len() as int).len() <= RESULT_CAP ==> out.len() == files_in(
            obs,
            obs.len() as int,
        ).len(),
        out.len() <= RESULT_CAP,
{
    let n = obs.len() as int;
    let files = files_in(obs, n);
    let (raw, order) = choose|raw: Seq<Finding>, order: Seq<int>|
        combines_all(raw, obs) && is_ranking(finding_keys(raw), order) && out == capped(
            #[trigger] arranged(raw, order),
        );
    files_are_distinct(obs, n);
    assert forall|k: int| 0 <= k < files.len() implies (#[trigger] raw[k]).test_file
        == files[k] by {
        about_is_about(obs, files[k], n);
        combination_keeps_file(raw[k], about(obs, files[k], n), files[k]);
    }
    assert forall|a: int, b: int| 0 <= a < b < out.len() implies (#[trigger] out[a]).test_file != (
    #[trigger] out[b]).test_file by {
        assert(out[a] == raw[order[a]] && out[b] == raw[order[b]]);
        assert(order[a] != order[b]) by {
            assert(crate::ranking::precedes(finding_keys(raw), order[a], order[b]));
        }
    }
    assert forall|a: int| 0 <= a < out.len() implies exists|i: int|
        0 <= i < obs.len() && #[trigger] obs[i].test_file == (#[trigger] out[a]).test_file by {
        assert(out[a] == raw[order[a]]);
        about_is_about(obs, files[order[a]], n);
        about_comes_from(obs, files[order[a]], n);
    }
}

proof fn about_comes_from(obs: Seq<Finding>, file: Seq<char>, n: int)
    requires
        0 <= n <= obs.len(),
        about(obs, file, n).len() > 0,
    ensures
        exists|i: int| 0 <= i < n && #[trigger] obs[i].test_file == file,
    decreases n,
{
    if obs[n - 1].test_file != file {
        about_comes_from(obs, file, n - 1);
    }
}

/// Combines the observations of each test file, and orders the findings by confidence.
pub fn compose_results(hits: Vec<AffectedTest>) -> (out: Vec<AffectedTest>)
    ensures
        is_outcome(out.deep_view(), hits.deep_view()),
{
    let ghost obs = hits.deep_view();
    let mut groups: Vec<Vec<AffectedTest>> = Vec::new();
    let mut index: StringHashMap<usize> = StringHashMap::new();
    let ghost all = hits@;
    let mut queue = reversed(hits);
    let ghost mut n: int = 0;
    assert(all.skip(0) =~= all);
    while queue.len() > 0
        invariant
            0 <= n,
            n + queue@.len() == all.len(),
            queue@ == all.skip(n).reverse(),
            obs.len() == all.len(),
            forall|i: int| 0 <= i < all.len() ==> (#[trigger] all[i]).deep_view() == obs[i],
            groups@.len() == files_in(obs, n).len(),
            forall|g: int|
                0 <= g < groups@.len() ==> (#[trigger] groups@[g]).deep_view() == about(
                    obs,
                    files_in(obs, n)[g],
                    n,
                ),
            forall|f: Seq<char>| #[trigger]
                index@.contains_key(f) <==> files_in(obs, n).contains(f),
            forall|f: Seq<char>| #[trigger]
                index@.contains_key(f) ==> index@[f] < groups@.len() && files_in(
                    obs,
                    n,
                )[index@[f] as int] == f,
        decreases queue@.len(),
    {
        let ghost known = files_in(obs, n);
        let ghost g0 = groups@;
        assert(queue@.last() == all[n]);
        if let Some(t) = queue.pop() {
            proof {
                assert(queue@ =~= all.skip(n + 1).reverse());
                assert(t.deep_view() == obs[n]);
                files_are_distinct(obs, n);
            }
            let ghost file = t.test_file@;
            let hit: Option<usize> = match index.get(t.test_file.as_str()) {
                Some(g) => Some(*g),
                None => None,
            };
            match hit {
                Some(g) => {
                    let ghost was = groups@[g as int].deep_view();
                    let ghost td = t.deep_view();
                    groups[g].push(t);
                    proof {
                        assert(groups@[g as int].deep_view() =~= was.push(td));
                        assert(files_in(obs, n + 1) == known);
                        assert forall|q: int| 0 <= q < groups@.len() implies (
                        #[trigger] groups@[q]).deep_view() == about(obs, known[q], n + 1) by {
                            assert(g0[q].deep_view() == about(obs, known[q], n));
                            if q != g {
                                assert(known[q] != known[g as int]);
                            }
                        }
                    }
                },
                None => {
                    let key = t.test_file.clone();
                    let ghost td = t.deep_view();
                    let one: Vec<AffectedTest> = vec![t];
                    let at: usize = groups.len();
                    groups.push(one);
                    index.insert(key, at);
                    proof {
                        about_is_about(obs, file, n);
                        assert(about(obs, file, n) =~= Seq::<Finding>::empty());
                        assert(one.deep_view() =~= about(obs, file, n + 1));
                        let next = files_in(obs, n + 1);
                        assert(next == known.push(file));
                        assert forall|q: int| 0 <= q < groups@.len() implies (
                        #[trigger] groups@[q]).deep_view() == about(obs, next[q], n + 1) by {
                            if q < at {
                                assert(g0[q].deep_view() == about(obs, known[q], n));
                                assert(known.contains(known[q]));
                            }
                        }
                        assert forall|f: Seq<char>| #[trigger] index@.contains_key(f)
                            <==> next.contains(f) by {
                            if known.contains(f) {
                                let j = choose|j: int| 0 <= j < known.len() && known[j] == f;
                                assert(next[j] == f);
                            }
                            assert(next[at as int] == file);
                            if next.contains(f) && f != file {
                                let j = choose|j: int| 0 <= j < next.len() && next[j] == f;
                                assert(known[j] == f);
                            }
                        }
                    }
                },
            }
        }
        proof {
            n = n + 1;
        }
    }
    let ghost files = files_in(obs, obs.len() as int);
    let ghost gs = groups@;
    let mut raw: Vec<AffectedTest> = Vec::new();
    let mut keys: Vec<u128> = Vec::new();
    let mut later = reversed(groups);
    assert(gs.skip(0) =~= gs);
    let ghost mut k: int = 0;
    while later.len() > 0
        invariant
            0 <= k,
            k + later@.len() == gs.len(),
            later@ == gs.skip(k).reverse(),
            gs.len() == files.len(),
            files == files_in(obs, obs.len() as int),
            forall|g: int|
                0 <= g < gs.len() ==> (#[trigger] gs[g]).deep_view() == about(
                    obs,
                    files[g],
                    obs.len() as int,
                ),
            raw@.len() == k,
            keys@.len() == k,
            forall|j: int|
                0 <= j < k ==> is_combination(
                    (#[trigger] raw@[j]).deep_view(),
                    about(obs, files[j], obs.len() as int),
                ),
            forall|j: int| 0 <= j < k ==> #[trigger] keys@[j] == raw@[j].confidence,
        decreases later@.len(),
    {
        assert(later@.last() == gs[k]);
        if let Some(g) = later.pop() {
            proof {
                assert(later@ =~= gs.skip(k + 1).reverse());
                about_is_about(obs, files[k], obs.len() as int);
                assert(files.contains(files[k]));
                assert(g@.len() == g.deep_view().len());
            }
            let one = combine_noisy_or(g);
            keys.push(one.confidence as u128);
            raw.push(one);
            proof {
                k = k + 1;
            }
        }
    }
    let ghost rv = raw.deep_view();
    let ghost rw = raw@;
    proof {
        assert(keys@ =~= finding_keys(rv));
        assert forall|j: int| 0 <= j < files.len() implies is_combination(
            #[trigger] rv[j],
            about(obs, files[j], obs.len() as int),
        ) by {
            assert(rv[j] == raw@[j].deep_view());
        }
        assert(combines_all(rv, obs));
    }
    let mut out = rank_desc(raw, keys);
    let ghost order = choose|order: Seq<int>| #[trigger]
        is_ranking(finding_keys(rv), order) && out@ == arranged(rw, order);
    proof {
        assert(is_ranking(finding_keys(rv), order));
        assert(out.deep_view() =~= arranged(rv, order));
    }
    let ghost before = out.deep_view();
    if out.len() > RESULT_CAP {
        out.truncate(RESULT_CAP);
        assert(out.deep_view() =~= before.take(RESULT_CAP as int));
    }
    assert(out.deep_view() == capped(arranged(rv, order)));
    out
}

} // verus!
