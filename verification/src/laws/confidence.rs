//! How confident the strategies are, and how their observations combine.
use vstd::prelude::*;

use crate::affected::{by_naming, by_proximity, file_observations, graph_observations};
use crate::graph::{depends, Edge};
use crate::observations::{
    all_mistaken, best_of, capped, combines_all, confidences, finding_keys, is_combination,
    is_outcome, is_signals, noisy_or, raw_signals, signal_keys, strategies, Finding, CERTAIN,
};
use crate::ranking::{arranged, is_ranking, precedes};
use crate::text::listed;
use crate::tree::Files;

verus! {

/// Tests that are named after a changed file, and the file with its own tests, are observed with
/// nine tenths of certainty; tests in a directory near it with three tenths.
pub proof fn file_observations_are_weighed(files: Files, source: Seq<char>, own: bool, k: int)
    requires
        0 <= k < file_observations(files, source, own).len(),
    ensures
        ({
            let o = file_observations(files, source, own)[k];
            &&& o.source_file == source
            &&& o.signals.len() == 0
            &&& {
                ||| o.strategy == "naming_convention"@ && 10 * o.confidence == 9 * CERTAIN && listed(
                    by_naming(files, source),
                    o.test_file,
                )
                ||| o.strategy == "directory_proximity"@ && 10 * o.confidence == 3 * CERTAIN
                    && listed(by_proximity(files, source), o.test_file)
                ||| o.strategy == "rust_inline_tests"@ && 10 * o.confidence == 9 * CERTAIN && own
                    && o.test_file == source
            }
        }),
{
    let named = by_naming(files, source);
    let near = by_proximity(files, source);
    let o = file_observations(files, source, own)[k];
    if k < named.len() {
        assert(o.test_file == named[k]);
    } else if k < named.len() + near.len() {
        assert(o.test_file == near[k - named.len()]);
    }
}

/// Tests that import a changed file are observed with seven tenths of certainty.
pub proof fn graph_observations_are_weighed(
    lists: Seq<Seq<Seq<char>>>,
    changed: Seq<Seq<char>>,
    n: int,
    k: int,
)
    requires
        0 <= n <= lists.len(),
        n <= changed.len(),
        0 <= k < graph_observations(lists, changed, n).len(),
    ensures
        ({
            let o = graph_observations(lists, changed, n)[k];
            &&& o.strategy == "import_graph"@
            &&& 10 * o.confidence == 7 * CERTAIN
            &&& o.signals.len() == 0
            &&& exists|i: int|
                0 <= i < n && o.source_file == #[trigger] changed[i] && listed(lists[i], o.test_file)
        }),
    decreases n,
{
    if n > 0 {
        let rest = graph_observations(lists, changed, n - 1);
        let o = graph_observations(lists, changed, n)[k];
        if k < rest.len() {
            graph_observations_are_weighed(lists, changed, n - 1, k);
            assert(o == rest[k]);
            let i = choose|i: int|
                0 <= i < n - 1 && o.source_file == #[trigger] changed[i] && listed(
                    lists[i],
                    o.test_file,
                );
            assert(o.source_file == changed[i]);
        } else {
            assert(o.test_file == lists[n - 1][k - rest.len()]);
            assert(o.source_file == changed[n - 1]);
            assert(listed(lists[n - 1], o.test_file));
        }
    }
}

/// Two observations are mistaken together as often as the one and the other: what remains of
/// certainty is what neither leaves open.
pub proof fn two_observations_multiply(c: u64, d: u64)
    requires
        c <= CERTAIN,
        d <= CERTAIN,
    ensures
        noisy_or(seq![c, d]) == CERTAIN - (CERTAIN - c) * (CERTAIN - d) / (CERTAIN as int),
{
    reveal_with_fuel(all_mistaken, 3);
    let q = CERTAIN - c;
    assert(CERTAIN * q / (CERTAIN as int) == q) by (nonlinear_arith);
    let s = seq![c, d];
    assert(s[0] == c && s[1] == d);
    assert(all_mistaken(s, 1) == q);
    assert(all_mistaken(s, 2) == q * (CERTAIN - d) / (CERTAIN as int));
}

/// One more observation leaves open only its own share of what was open.
pub proof fn one_more_observation_multiplies(cs: Seq<u64>, d: u64)
    requires
        d <= CERTAIN,
    ensures
        CERTAIN - noisy_or(cs.push(d)) == (CERTAIN - noisy_or(cs)) * (CERTAIN - d) / (CERTAIN as int),
{
    mistakes_of_prefix(cs, cs.push(d), cs.len() as int);
}

proof fn mistakes_of_prefix(a: Seq<u64>, b: Seq<u64>, n: int)
    requires
        n <= a.len(),
        n <= b.len(),
        forall|k: int| 0 <= k < n ==> a[k] == b[k],
    ensures
        all_mistaken(a, n) == all_mistaken(b, n),
    decreases n,
{
    if n > 0 {
        mistakes_of_prefix(a, b, n - 1);
    }
}

/// No more than a hundred tests are reported, the most confident first.
pub proof fn a_hundred_tests_at_most(out: Seq<Finding>, obs: Seq<Finding>)
    requires
        is_outcome(out, obs),
    ensures
        out.len() <= 100,
        forall|a: int, b: int|
            0 <= a < b < out.len() ==> (#[trigger] out[a]).confidence >= (
            #[trigger] out[b]).confidence,
{
    let (raw, order) = choose|raw: Seq<Finding>, order: Seq<int>|
        combines_all(raw, obs) && is_ranking(finding_keys(raw), order) && out == capped(
            #[trigger] arranged(raw, order),
        );
    assert forall|a: int, b: int| 0 <= a < b < out.len() implies (#[trigger] out[a]).confidence >= (
    #[trigger] out[b]).confidence by {
        assert(precedes(finding_keys(raw), order[a], order[b]));
        assert(out[a] == raw[order[a]] && out[b] == raw[order[b]]);
    }
}

/// A combination is attributed to one of its observations that no other exceeds in confidence.
pub proof fn the_strongest_observation_counts(r: Finding, obs: Seq<Finding>) -> (i: int)
    requires
        is_combination(r, obs),
        obs.len() > 0,
    ensures
        0 <= i < obs.len(),
        r.test_file == obs[i].test_file,
        r.strategy == obs[i].strategy,
        r.source_file == obs[i].source_file,
        forall|j: int| 0 <= j < obs.len() ==> (#[trigger] obs[j]).confidence <= obs[i].confidence,
{
    let keys = finding_keys(obs);
    let order = choose|order: Seq<int>| #[trigger]
        is_ranking(keys, order) && {
            let sorted = arranged(obs, order);
            &&& r.test_file == sorted[0].test_file
            &&& r.strategy == sorted[0].strategy
            &&& r.source_file == sorted[0].source_file
            &&& r.confidence == noisy_or(confidences(sorted))
            &&& is_signals(r.signals, sorted)
        };
    let i = order[0];
    assert forall|j: int| 0 <= j < obs.len() implies (#[trigger] obs[j]).confidence
        <= obs[i].confidence by {
        crate::ranking::ranking_is_complete(keys, order, j);
        let k = choose|k: int| 0 <= k < order.len() && order[k] == j;
        if k > 0 {
            assert(precedes(keys, order[0], order[k]));
        }
    }
    i
}

/// One observation passes through, and two combine as they multiply.
pub proof fn one_and_two_observations(r: Finding, obs: Seq<Finding>)
    requires
        is_combination(r, obs),
    ensures
        obs.len() == 1 && obs[0].confidence <= CERTAIN ==> r.confidence == obs[0].confidence,
        obs.len() == 2 && obs[0].confidence <= CERTAIN && obs[1].confidence <= CERTAIN
            ==> r.confidence == CERTAIN - (CERTAIN - obs[0].confidence) * (CERTAIN
            - obs[1].confidence) / (CERTAIN as int),
{
    let keys = finding_keys(obs);
    let order = choose|order: Seq<int>| #[trigger]
        is_ranking(keys, order) && {
            let sorted = arranged(obs, order);
            &&& r.test_file == sorted[0].test_file
            &&& r.strategy == sorted[0].strategy
            &&& r.source_file == sorted[0].source_file
            &&& r.confidence == noisy_or(confidences(sorted))
            &&& is_signals(r.signals, sorted)
        };
    let cs = confidences(arranged(obs, order));
    if obs.len() == 1 {
        assert(order[0] == 0);
        assert(cs =~= seq![obs[0].confidence]);
        crate::observations::single_observation_passes_through(obs[0].confidence);
    } else if obs.len() == 2 && obs[0].confidence <= CERTAIN && obs[1].confidence <= CERTAIN {
        let a = obs[0].confidence;
        let b = obs[1].confidence;
        assert(0 <= order[0] < 2 && 0 <= order[1] < 2);
        assert(precedes(keys, order[0], order[1]));
        assert((CERTAIN - a) * (CERTAIN - b) == (CERTAIN - b) * (CERTAIN - a)) by (nonlinear_arith);
        two_observations_multiply(a, b);
        two_observations_multiply(b, a);
        if order[0] == 0 {
            assert(cs =~= seq![a, b]);
        } else {
            assert(cs =~= seq![b, a]);
        }
    }
}

proof fn strategies_are_those(obs: Seq<Finding>, n: int)
    requires
        0 <= n <= obs.len(),
    ensures
        strategies(obs, n).no_duplicates(),
        forall|s: Seq<char>| #[trigger]
            strategies(obs, n).contains(s) <==> exists|i: int|
                0 <= i < n && #[trigger] obs[i].strategy == s,
    decreases n,
{
    if n > 0 {
        strategies_are_those(obs, n - 1);
        let q = strategies(obs, n - 1);
        let l = strategies(obs, n);
        let x = obs[n - 1].strategy;
        assert forall|s: Seq<char>| #[trigger] l.contains(s) <==> exists|i: int|
            0 <= i < n && #[trigger] obs[i].strategy == s by {
            if l.contains(s) {
                let k = choose|k: int| 0 <= k < l.len() && l[k] == s;
                if k < q.len() {
                    assert(q[k] == s);
                    assert(q.contains(s));
                } else {
                    assert(obs[n - 1].strategy == s);
                }
            }
            if q.contains(s) {
                let k = choose|k: int| 0 <= k < q.len() && q[k] == s;
                assert(l[k] == s);
            }
            if exists|i: int| 0 <= i < n && #[trigger] obs[i].strategy == s {
                let i = choose|i: int| 0 <= i < n && #[trigger] obs[i].strategy == s;
                if i == n - 1 {
                    if !q.contains(s) {
                        assert(l[q.len() as int] == s);
                    }
                } else {
                    assert(q.contains(s));
                }
            }
        }
    }
}

proof fn best_is_best(obs: Seq<Finding>, s: Seq<char>, n: int)
    requires
        0 <= n <= obs.len(),
    ensures
        forall|i: int|
            0 <= i < n && (#[trigger] obs[i]).strategy == s ==> obs[i].confidence <= best_of(
                obs,
                s,
                n,
            ),
        best_of(obs, s, n) > 0 ==> exists|i: int|
            0 <= i < n && (#[trigger] obs[i]).strategy == s && obs[i].confidence == best_of(
                obs,
                s,
                n,
            ),
    decreases n,
{
    if n > 0 {
        best_is_best(obs, s, n - 1);
        let b = best_of(obs, s, n - 1);
        if best_of(obs, s, n) == b && b > 0 {
            let i = choose|i: int|
                0 <= i < n - 1 && (#[trigger] obs[i]).strategy == s && obs[i].confidence == b;
            assert(obs[i].strategy == s);
        } else if best_of(obs, s, n) != b {
            assert(obs[n - 1].strategy == s);
        }
    }
}

/// Each strategy that made an observation is a signal, once, with the highest confidence of its
/// observations. Stronger signals come first.
pub proof fn signals_tell_the_strategies(out: Seq<(Seq<char>, u64)>, obs: Seq<Finding>)
    requires
        is_signals(out, obs),
    ensures
        forall|a: int, b: int|
            0 <= a < b < out.len() ==> (#[trigger] out[a]).0 != (#[trigger] out[b]).0 && out[a].1
                >= out[b].1,
        forall|k: int, i: int|
            0 <= k < out.len() && 0 <= i < obs.len() && (#[trigger] obs[i]).strategy == (
            #[trigger] out[k]).0 ==> obs[i].confidence <= out[k].1,
        forall|k: int|
            0 <= k < out.len() && (#[trigger] out[k]).1 > 0 ==> exists|i: int|
                0 <= i < obs.len() && (#[trigger] obs[i]).strategy == out[k].0 && obs[i].confidence
                    == out[k].1,
        forall|i: int|
            0 <= i < obs.len() ==> exists|k: int|
                0 <= k < out.len() && (#[trigger] out[k]).0 == (#[trigger] obs[i]).strategy,
{
    let n = obs.len() as int;
    let raw = raw_signals(obs);
    let names = strategies(obs, n);
    let keys = signal_keys(raw);
    let order = choose|order: Seq<int>| #[trigger]
        is_ranking(keys, order) && out == arranged(raw, order);
    strategies_are_those(obs, n);
    assert forall|a: int, b: int| 0 <= a < b < out.len() implies (#[trigger] out[a]).0 != (
    #[trigger] out[b]).0 && out[a].1 >= out[b].1 by {
        assert(precedes(keys, order[a], order[b]));
        assert(names[order[a]] != names[order[b]]);
    }
    assert forall|k: int, i: int|
        0 <= k < out.len() && 0 <= i < obs.len() && (#[trigger] obs[i]).strategy == (
        #[trigger] out[k]).0 implies obs[i].confidence <= out[k].1 by {
        best_is_best(obs, names[order[k]], n);
    }
    assert forall|k: int| 0 <= k < out.len() && (#[trigger] out[k]).1 > 0 implies exists|i: int|
        0 <= i < obs.len() && (#[trigger] obs[i]).strategy == out[k].0 && obs[i].confidence
            == out[k].1 by {
        best_is_best(obs, names[order[k]], n);
    }
    assert forall|i: int| 0 <= i < obs.len() implies exists|k: int|
        0 <= k < out.len() && (#[trigger] out[k]).0 == (#[trigger] obs[i]).strategy by {
        assert(names.contains(obs[i].strategy));
        let j = choose|j: int| 0 <= j < names.len() && names[j] == obs[i].strategy;
        crate::ranking::ranking_is_complete(keys, order, j);
        let k = choose|k: int| 0 <= k < order.len() && order[k] == j;
        assert(out[k].0 == obs[i].strategy);
    }
}

// ---------------------------------------------------------------------------------------------
// Dependence
// ---------------------------------------------------------------------------------------------
/// `way` leads from file to file along imports.
pub open spec fn is_chain(edges: Set<Edge>, way: Seq<Seq<char>>) -> bool {
    forall|k: int|
        0 <= k < way.len() - 1 ==> edges.contains((#[trigger] way[k], way[k + 1]))
}

/// A file depends on another over `hops` imports at most where a chain of that many imports, one at
/// least, leads from the one to the other.
pub proof fn dependence_is_a_chain(
    edges: Set<Edge>,
    from: Seq<char>,
    to: Seq<char>,
    hops: nat,
    way: Seq<Seq<char>>,
)
    requires
        is_chain(edges, way),
        2 <= way.len() <= hops + 1,
        way[0] == from,
        way.last() == to,
    ensures
        depends(edges, from, to, hops),
    decreases hops,
{
    assert(edges.contains((way[0], way[1])));
    if way.len() > 2 {
        let rest = way.skip(1);
        assert forall|k: int| 0 <= k < rest.len() - 1 implies edges.contains(
            (#[trigger] rest[k], rest[k + 1]),
        ) by {
            assert(edges.contains((way[k + 1], way[k + 1 + 1])));
        }
        dependence_is_a_chain(edges, way[1], to, (hops - 1) as nat, rest);
    }
}

/// Dependence leaves a chain behind.
pub proof fn dependence_has_a_chain(edges: Set<Edge>, from: Seq<char>, to: Seq<char>, hops: nat) -> (
    way: Seq<Seq<char>>)
    requires
        depends(edges, from, to, hops),
    ensures
        is_chain(edges, way),
        2 <= way.len() <= hops + 1,
        way[0] == from,
        way.last() == to,
    decreases hops,
{
    if edges.contains((from, to)) {
        seq![from, to]
    } else {
        let mid = choose|mid: Seq<char>| #[trigger]
            edges.contains((from, mid)) && depends(edges, mid, to, (hops - 1) as nat);
        let rest = dependence_has_a_chain(edges, mid, to, (hops - 1) as nat);
        let way = seq![from] + rest;
        assert forall|k: int| 0 <= k < way.len() - 1 implies edges.contains(
            (#[trigger] way[k], way[k + 1]),
        ) by {
            if k > 0 {
                assert(edges.contains((rest[k - 1], rest[k - 1 + 1])));
            }
        }
        way
    }
}

} // verus!
