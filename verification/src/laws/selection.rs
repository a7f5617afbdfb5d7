//! Which test files a change selects.
use vstd::prelude::*;

use crate::affected::{
    all_file_observations, any_source, by_naming, by_proximity, file_observations,
    graph_observations, heuristic_findings, is_cached_outcome, is_graph_outcome, is_graph_part,
    is_importer_list, is_test, is_top, merged, merged_all, observations, tests_itself, CachedAffected, GRAPH_CONFIDENCE, GRAPH_MAX_DEPTH,
    NAMING_CONFIDENCE, PROXIMITY_CONFIDENCE,
};
use crate::graph::{depends, Edge};
use crate::laws::cache::{
    empty_cache_is_truthful, first_build_writes_the_truth, is_plain, is_truthful,
    truthful_cache_gives_the_graph,
};
use crate::observations::{
    about, about_is_about, capped, combination_keeps_file, combines_all, confidences,
    files_are_distinct, files_in, finding_keys, is_combination, is_outcome, is_signals, noisy_or,
    observed, outcome_covers_observations, raw_signals, signal_keys, Finding, RESULT_CAP,
};
use crate::paths::canonical;
use crate::ranking::{arranged, is_ranking, ranking_is_complete, ranking_is_unique};
use crate::text::listed;
use crate::tree::{Files, ProjectTree};
use crate::walker::{graph_edges, CachedFile};

verus! {

/// Whether the change of the file `source` selects the test file `f`: it is named after the source,
/// stands in a test directory near it, is the source itself with its own tests, or imports it over
/// a few files. A changed test file selects nothing.
pub open spec fn selects(
    files: Files,
    edges: Set<Edge>,
    source: Seq<char>,
    f: Seq<char>,
) -> bool {
    !is_test(source) && {
        ||| listed(by_naming(files, source), f)
        ||| listed(by_proximity(files, source), f)
        ||| tests_itself(files, source) && f == source
        ||| is_importer(edges, source, f)
    }
}

/// Whether `f` is a test file that imports `source`, itself or over a few files.
pub open spec fn is_importer(edges: Set<Edge>, source: Seq<char>, f: Seq<char>) -> bool {
    is_test(f) && f != canonical(source) && depends(
        edges,
        f,
        canonical(source),
        GRAPH_MAX_DEPTH as nat,
    )
}

/// Whether one of the changed files selects `f`.
pub open spec fn is_selected(
    files: Files,
    edges: Set<Edge>,
    changed: Seq<Seq<char>>,
    f: Seq<char>,
) -> bool {
    exists|k: int| 0 <= k < changed.len() && selects(files, edges, #[trigger] changed[k], f)
}

/// Whether one of the findings is of the test file `f`.
pub open spec fn names_test(list: Seq<Finding>, f: Seq<char>) -> bool {
    exists|i: int| 0 <= i < list.len() && #[trigger] list[i].test_file == f
}

/// Two lists hold the same findings.
pub open spec fn same_findings(a: Seq<Finding>, b: Seq<Finding>) -> bool {
    a.len() == b.len() && forall|x: Finding| #[trigger] a.contains(x) <==> b.contains(x)
}

// ---------------------------------------------------------------------------------------------
// Observed files
// ---------------------------------------------------------------------------------------------
proof fn names_of_joined(a: Seq<Finding>, b: Seq<Finding>, f: Seq<char>)
    ensures
        names_test(a + b, f) <==> names_test(a, f) || names_test(b, f),
{
    if names_test(a + b, f) {
        let i = choose|i: int| 0 <= i < (a + b).len() && #[trigger] (a + b)[i].test_file == f;
        if i < a.len() {
            assert(a[i].test_file == f);
        } else {
            assert(b[i - a.len()].test_file == f);
        }
    }
    if names_test(a, f) {
        let i = choose|i: int| 0 <= i < a.len() && #[trigger] a[i].test_file == f;
        assert((a + b)[i].test_file == f);
    }
    if names_test(b, f) {
        let i = choose|i: int| 0 <= i < b.len() && #[trigger] b[i].test_file == f;
        assert((a + b)[a.len() + i].test_file == f);
    }
}

proof fn names_of_observations(
    files: Seq<Seq<char>>,
    confidence: u64,
    strategy: Seq<char>,
    source: Seq<char>,
    f: Seq<char>,
)
    ensures
        names_test(observations(files, confidence, strategy, source), f) <==> listed(files, f),
{
    let obs = observations(files, confidence, strategy, source);
    if names_test(obs, f) {
        let i = choose|i: int| 0 <= i < obs.len() && #[trigger] obs[i].test_file == f;
        assert(files[i] == f);
    }
    if listed(files, f) {
        let i = choose|i: int| 0 <= i < files.len() && #[trigger] files[i] == f;
        assert(obs[i].test_file == f);
    }
}

/// Whether the strategies that look at one file observe `f` for `source`.
spec fn observes(files: Files, source: Seq<char>, f: Seq<char>) -> bool {
    !is_test(source) && (listed(by_naming(files, source), f) || listed(
        by_proximity(files, source),
        f,
    ) || (tests_itself(files, source) && f == source))
}

proof fn names_of_file_observations(files: Files, source: Seq<char>, f: Seq<char>)
    ensures
        names_test(file_observations(files, source, tests_itself(files, source)), f)
            <==> observes(files, source, f),
{
    if !is_test(source) {
        let own = if tests_itself(files, source) {
            seq![source]
        } else {
            Seq::empty()
        };
        let named = by_naming(files, source);
        let near = by_proximity(files, source);
        let a = observations(named, NAMING_CONFIDENCE, "naming_convention"@, source);
        let b = observations(near, PROXIMITY_CONFIDENCE, "directory_proximity"@, source);
        let c = observations(own, NAMING_CONFIDENCE, "rust_inline_tests"@, source);
        names_of_joined(a + b, c, f);
        names_of_joined(a, b, f);
        names_of_observations(named, NAMING_CONFIDENCE, "naming_convention"@, source, f);
        names_of_observations(near, PROXIMITY_CONFIDENCE, "directory_proximity"@, source, f);
        names_of_observations(own, NAMING_CONFIDENCE, "rust_inline_tests"@, source, f);
        if tests_itself(files, source) && f == source {
            assert(own[0] == f);
        }
    }
}

proof fn names_of_all_observations(
    files: Files,
    changed: Seq<Seq<char>>,
    n: int,
    f: Seq<char>,
)
    requires
        0 <= n <= changed.len(),
    ensures
        names_test(all_file_observations(files, changed, n), f) <==> exists|k: int|
            0 <= k < n && observes(files, #[trigger] changed[k], f),
    decreases n,
{
    if n > 0 {
        let source = changed[n - 1];
        names_of_all_observations(files, changed, n - 1, f);
        names_of_file_observations(files, source, f);
        names_of_joined(
            all_file_observations(files, changed, n - 1),
            file_observations(files, source, tests_itself(files, source)),
            f,
        );
        if observes(files, source, f) {
            assert(observes(files, changed[n - 1], f));
        }
    }
}

proof fn names_of_graph_observations(
    lists: Seq<Seq<Seq<char>>>,
    changed: Seq<Seq<char>>,
    n: int,
    f: Seq<char>,
)
    requires
        0 <= n <= lists.len(),
    ensures
        names_test(graph_observations(lists, changed, n), f) <==> exists|k: int|
            0 <= k < n && listed(#[trigger] lists[k], f),
    decreases n,
{
    if n > 0 {
        names_of_graph_observations(lists, changed, n - 1, f);
        names_of_observations(
            lists[n - 1],
            GRAPH_CONFIDENCE,
            "import_graph"@,
            changed[n - 1],
            f,
        );
        names_of_joined(
            graph_observations(lists, changed, n - 1),
            observations(lists[n - 1], GRAPH_CONFIDENCE, "import_graph"@, changed[n - 1]),
            f,
        );
        if listed(lists[n - 1], f) {
            assert(0 <= n - 1 < n);
        }
    }
}

/// All the observations together are of the selected files.
proof fn observed_are_selected(
    files: Files,
    edges: Set<Edge>,
    changed: Seq<Seq<char>>,
    part: Seq<Finding>,
    f: Seq<char>,
)
    requires
        is_graph_part(part, edges, changed, changed.len() as int),
    ensures
        names_test(all_file_observations(files, changed, changed.len() as int) + part, f)
            <==> is_selected(files, edges, changed, f),
{
    let n = changed.len() as int;
    let lists = choose|lists: Seq<Seq<Seq<char>>>|
        lists.len() == n && (forall|k: int|
            0 <= k < n ==> is_importer_list(#[trigger] lists[k], edges, changed[k])) && part
            == #[trigger] graph_observations(lists, changed, n);
    names_of_all_observations(files, changed, n, f);
    names_of_graph_observations(lists, changed, n, f);
    names_of_joined(all_file_observations(files, changed, n), part, f);
    if exists|k: int| 0 <= k < n && observes(files, #[trigger] changed[k], f) {
        let k = choose|k: int| 0 <= k < n && observes(files, #[trigger] changed[k], f);
        assert(selects(files, edges, changed[k], f));
    }
    if exists|k: int| 0 <= k < n && listed(#[trigger] lists[k], f) {
        let k = choose|k: int| 0 <= k < n && listed(#[trigger] lists[k], f);
        assert(is_importer_list(lists[k], edges, changed[k]));
        assert(selects(files, edges, changed[k], f));
    }
    if is_selected(files, edges, changed, f) {
        let k = choose|k: int|
            0 <= k < changed.len() && selects(files, edges, #[trigger] changed[k], f);
        if !observes(files, changed[k], f) {
            assert(is_importer_list(lists[k], edges, changed[k]));
            assert(listed(lists[k], f));
        }
    }
}

// ---------------------------------------------------------------------------------------------
// Reported files
// ---------------------------------------------------------------------------------------------
proof fn files_are_named(obs: Seq<Finding>, n: int, f: Seq<char>)
    requires
        0 <= n <= obs.len(),
    ensures
        files_in(obs, n).contains(f) <==> exists|i: int|
            0 <= i < n && #[trigger] obs[i].test_file == f,
    decreases n,
{
    if n > 0 {
        files_are_named(obs, n - 1, f);
        let known = files_in(obs, n - 1);
        let all = files_in(obs, n);
        let last = obs[n - 1].test_file;
        if all.contains(f) {
            let j = choose|j: int| 0 <= j < all.len() && all[j] == f;
            if j < known.len() {
                assert(known[j] == f);
                assert(known.contains(f));
            } else {
                assert(obs[n - 1].test_file == f);
            }
        }
        if known.contains(f) {
            let j = choose|j: int| 0 <= j < known.len() && known[j] == f;
            assert(all[j] == f);
        }
        if last == f && !known.contains(f) {
            assert(all[known.len() as int] == f);
        }
    }
}

/// What an outcome with fewer findings than the limit consists of: for each observed test file one
/// combination of its observations.
proof fn short_outcome_is_complete(out: Seq<Finding>, obs: Seq<Finding>, f: Seq<char>)
    requires
        is_outcome(out, obs),
        out.len() < RESULT_CAP,
        names_test(obs, f),
    ensures
        exists|a: int|
            0 <= a < out.len() && (#[trigger] out[a]).test_file == f && is_combination(
                out[a],
                about(obs, f, obs.len() as int),
            ),
        out.len() == files_in(obs, obs.len() as int).len(),
{
    let n = obs.len() as int;
    let files = files_in(obs, n);
    let (raw, order) = choose|raw: Seq<Finding>, order: Seq<int>|
        combines_all(raw, obs) && is_ranking(finding_keys(raw), order) && out == capped(
            #[trigger] arranged(raw, order),
        );
    files_are_named(obs, n, f);
    let j = choose|j: int| 0 <= j < files.len() && files[j] == f;
    ranking_is_complete(finding_keys(raw), order, j);
    let a = choose|a: int| 0 <= a < order.len() && order[a] == j;
    assert(out[a] == raw[j]);
    about_is_about(obs, f, n);
    combination_keeps_file(raw[j], about(obs, f, n), f);
}

/// Each finding of an outcome combines the observations of its test file.
proof fn findings_are_combinations(out: Seq<Finding>, obs: Seq<Finding>, a: int)
    requires
        is_outcome(out, obs),
        0 <= a < out.len(),
    ensures
        is_combination(out[a], about(obs, out[a].test_file, obs.len() as int)),
        names_test(obs, out[a].test_file),
{
    let n = obs.len() as int;
    let files = files_in(obs, n);
    let (raw, order) = choose|raw: Seq<Finding>, order: Seq<int>|
        combines_all(raw, obs) && is_ranking(finding_keys(raw), order) && out == capped(
            #[trigger] arranged(raw, order),
        );
    let j = order[a];
    assert(out[a] == raw[j]);
    assert(files.contains(files[j]));
    about_is_about(obs, files[j], n);
    combination_keeps_file(raw[j], about(obs, files[j], n), files[j]);
    files_are_named(obs, n, files[j]);
}

/// Imports, naming, proximity and inline tests together report only test files that the change
/// selects, and unless the list is full they report all of them.
pub proof fn graph_outcome_is_the_selection(
    out: Seq<Finding>,
    files: Files,
    edges: Set<Edge>,
    changed: Seq<Seq<char>>,
)
    requires
        is_graph_outcome(out, files, edges, changed),
    ensures
        forall|f: Seq<char>| #[trigger]
            names_test(out, f) ==> is_selected(files, edges, changed, f),
        out.len() < RESULT_CAP ==> forall|f: Seq<char>| #[trigger]
            names_test(out, f) <==> is_selected(files, edges, changed, f),
{
    let n = changed.len() as int;
    let own = all_file_observations(files, changed, n);
    let part = choose|part: Seq<Finding>|
        is_graph_part(part, edges, changed, n) && is_outcome(out, #[trigger] (own + part));
    let obs = own + part;
    assert forall|f: Seq<char>| #[trigger] names_test(out, f) implies is_selected(
        files,
        edges,
        changed,
        f,
    ) by {
        let a = choose|a: int| 0 <= a < out.len() && #[trigger] out[a].test_file == f;
        findings_are_combinations(out, obs, a);
        observed_are_selected(files, edges, changed, part, f);
    }
    if out.len() < RESULT_CAP {
        assert forall|f: Seq<char>| is_selected(files, edges, changed, f) implies #[trigger]
            names_test(out, f) by {
            observed_are_selected(files, edges, changed, part, f);
            short_outcome_is_complete(out, obs, f);
        }
    }
}

// ---------------------------------------------------------------------------------------------
// Heuristics and the graph
// ---------------------------------------------------------------------------------------------
/// Whether naming or proximity finds `f` for the changed file `source`.
#[verifier::opaque]
spec fn guesses(files: Files, source: Seq<char>, f: Seq<char>) -> bool {
    !is_test(source) && (listed(by_naming(files, source), f) || listed(
        by_proximity(files, source),
        f,
    ))
}

/// Whether naming or proximity finds `f` for one of the first `n` changed files.
spec fn is_guessed(files: Files, changed: Seq<Seq<char>>, n: int, f: Seq<char>) -> bool {
    exists|k: int| 0 <= k < n && guesses(files, #[trigger] changed[k], f)
}

/// No two findings are of one test file.
spec fn are_distinct(list: Seq<Finding>) -> bool {
    forall|a: int, b: int|
        0 <= a < b < list.len() ==> (#[trigger] list[a]).test_file != (#[trigger] list[b]).test_file
}

/// One more observation adds its test file, and leaves the files distinct.
proof fn merging_adds_one(results: Seq<Finding>, t: Finding, n: int)
    requires
        are_distinct(results),
        0 <= n <= results.len(),
        forall|k: int| n <= k < results.len() ==> (#[trigger] results[k]).test_file != t.test_file,
    ensures
        are_distinct(merged(results, t, n)),
        merged(results, t, n).len() >= results.len(),
        forall|f: Seq<char>| #[trigger]
            names_test(merged(results, t, n), f) <==> names_test(results, f) || f == t.test_file,
    decreases n,
{
    let next = merged(results, t, n);
    if n > 0 && results[n - 1].test_file != t.test_file {
        merging_adds_one(results, t, n - 1);
    } else {
        assert forall|k: int| 0 <= k < results.len() implies (#[trigger] next[k]).test_file
            == results[k].test_file by {}
        assert forall|f: Seq<char>| #[trigger] names_test(next, f) <==> names_test(results, f) || f
            == t.test_file by {
            if names_test(results, f) {
                let i = choose|i: int| 0 <= i < results.len() && #[trigger] results[i].test_file == f;
                assert(next[i].test_file == f);
            }
            if names_test(next, f) {
                let i = choose|i: int| 0 <= i < next.len() && #[trigger] next[i].test_file == f;
                if i < results.len() {
                    assert(results[i].test_file == f);
                }
            }
            if f == t.test_file {
                if n > 0 {
                    assert(next[n - 1].test_file == f);
                } else {
                    assert(next[results.len() as int].test_file == f);
                }
            }
        }
    }
}

proof fn merging_adds_all(results: Seq<Finding>, obs: Seq<Finding>, n: int)
    requires
        are_distinct(results),
        0 <= n <= obs.len(),
    ensures
        are_distinct(merged_all(results, obs, n)),
        merged_all(results, obs, n).len() >= results.len(),
        forall|f: Seq<char>| #[trigger]
            names_test(merged_all(results, obs, n), f) <==> names_test(results, f) || names_test(
                obs.take(n),
                f,
            ),
    decreases n,
{
    let next = merged_all(results, obs, n);
    if n > 0 {
        merging_adds_all(results, obs, n - 1);
        let prev = merged_all(results, obs, n - 1);
        merging_adds_one(prev, obs[n - 1], prev.len() as int);
        assert forall|f: Seq<char>| #[trigger] names_test(next, f) <==> names_test(results, f)
            || names_test(obs.take(n), f) by {
            assert(names_test(prev, f) <==> names_test(results, f) || names_test(
                obs.take(n - 1),
                f,
            ));
            if names_test(obs.take(n - 1), f) {
                let i = choose|i: int|
                    0 <= i < n - 1 && #[trigger] obs.take(n - 1)[i].test_file == f;
                assert(obs.take(n)[i].test_file == f);
            }
            if names_test(obs.take(n), f) {
                let i = choose|i: int| 0 <= i < n && #[trigger] obs.take(n)[i].test_file == f;
                if i < n - 1 {
                    assert(obs.take(n - 1)[i].test_file == f);
                }
            }
            if obs[n - 1].test_file == f {
                assert(obs.take(n)[n - 1].test_file == f);
            }
        }
    }
}

/// The heuristics find each guessed file once, as long as there are fewer than the limit.
proof fn heuristics_find_the_guessed(files: Files, changed: Seq<Seq<char>>, n: int)
    requires
        0 <= n <= changed.len(),
    ensures
        are_distinct(heuristic_findings(files, changed, n)),
        forall|f: Seq<char>| #[trigger]
            names_test(heuristic_findings(files, changed, n), f) ==> is_guessed(
                files,
                changed,
                n,
                f,
            ),
        heuristic_findings(files, changed, n).len() < RESULT_CAP ==> forall|f: Seq<char>|
            is_guessed(files, changed, n, f) ==> #[trigger] names_test(
                heuristic_findings(files, changed, n),
                f,
            ),
    decreases n,
{
    if n > 0 {
        heuristics_find_the_guessed(files, changed, n - 1);
        let prev = heuristic_findings(files, changed, n - 1);
        let obs = file_observations(files, changed[n - 1], false);
        let list = heuristic_findings(files, changed, n);
        let next = merged_all(prev, obs, obs.len() as int);
        merging_adds_all(prev, obs, obs.len() as int);
        assert(obs.take(obs.len() as int) =~= obs);
        assert(list == if prev.len() >= RESULT_CAP || is_test(changed[n - 1]) {
            prev
        } else {
            next
        });
        guesses_add_up(files, changed, n, prev, next, obs);
    }
}

proof fn guesses_add_up(
    files: Files,
    changed: Seq<Seq<char>>,
    n: int,
    prev: Seq<Finding>,
    next: Seq<Finding>,
    obs: Seq<Finding>,
)
    requires
        0 < n <= changed.len(),
        obs == file_observations(files, changed[n - 1], false),
        forall|f: Seq<char>| #[trigger]
            names_test(prev, f) ==> is_guessed(files, changed, n - 1, f),
        forall|f: Seq<char>| #[trigger]
            names_test(next, f) <==> names_test(prev, f) || names_test(obs, f),
    ensures
        forall|f: Seq<char>| #[trigger]
            names_test(prev, f) ==> is_guessed(files, changed, n, f),
        forall|f: Seq<char>| #[trigger]
            names_test(next, f) ==> is_guessed(files, changed, n, f),
        (forall|f: Seq<char>|
            is_guessed(files, changed, n - 1, f) ==> #[trigger] names_test(prev, f)) ==> {
            &&& forall|f: Seq<char>|
                is_guessed(files, changed, n, f) ==> #[trigger] names_test(next, f)
            &&& is_test(changed[n - 1]) ==> forall|f: Seq<char>|
                is_guessed(files, changed, n, f) ==> #[trigger] names_test(prev, f)
        },
{
    let source = changed[n - 1];
    assert forall|f: Seq<char>| #[trigger] names_test(prev, f) implies is_guessed(
        files,
        changed,
        n,
        f,
    ) by {
        let k = choose|k: int| 0 <= k < n - 1 && guesses(files, #[trigger] changed[k], f);
        assert(guesses(files, changed[k], f));
    }
    assert forall|f: Seq<char>| #[trigger] names_test(next, f) implies is_guessed(
        files,
        changed,
        n,
        f,
    ) by {
        names_of_guesses(files, source, f);
        if !names_test(prev, f) {
            assert(guesses(files, changed[n - 1], f));
        }
    }
    if forall|f: Seq<char>|
        is_guessed(files, changed, n - 1, f) ==> #[trigger] names_test(prev, f) {
        assert forall|f: Seq<char>| is_guessed(files, changed, n, f) implies #[trigger]
            names_test(next, f) && (is_test(source) ==> names_test(prev, f)) by {
            names_of_guesses(files, source, f);
            let k = choose|k: int| 0 <= k < n && guesses(files, #[trigger] changed[k], f);
            if k < n - 1 {
                assert(is_guessed(files, changed, n - 1, f));
                assert(names_test(prev, f));
            } else {
                assert(names_test(obs, f));
            }
        }
        if is_test(source) {
            assert forall|f: Seq<char>| is_guessed(files, changed, n, f) implies #[trigger]
                names_test(prev, f) by {
                assert(names_test(next, f));
            }
        }
    }
}

proof fn names_of_guesses(files: Files, source: Seq<char>, f: Seq<char>)
    ensures
        names_test(file_observations(files, source, false), f) <==> guesses(files, source, f),
        guesses(files, source, f) ==> !is_test(source),
{
    reveal(guesses);
    if !is_test(source) {
        let named = by_naming(files, source);
        let near = by_proximity(files, source);
        let none = Seq::<Seq<char>>::empty();
        let a = observations(named, NAMING_CONFIDENCE, "naming_convention"@, source);
        let b = observations(near, PROXIMITY_CONFIDENCE, "directory_proximity"@, source);
        let c = observations(none, NAMING_CONFIDENCE, "rust_inline_tests"@, source);
        names_of_joined(a + b, c, f);
        names_of_joined(a, b, f);
        names_of_observations(named, NAMING_CONFIDENCE, "naming_convention"@, source, f);
        names_of_observations(near, PROXIMITY_CONFIDENCE, "directory_proximity"@, source, f);
        names_of_observations(none, NAMING_CONFIDENCE, "rust_inline_tests"@, source, f);
    }
}

/// A full list of distinct files does not fit into a shorter list that names them all.
proof fn distinct_files_need_room(list: Seq<Finding>, out: Seq<Finding>)
    requires
        are_distinct(list),
        forall|f: Seq<char>| #[trigger] names_test(list, f) ==> names_test(out, f),
    ensures
        list.len() <= out.len(),
{
    let a = Seq::new(list.len(), |k: int| list[k].test_file);
    let b = Seq::new(out.len(), |k: int| out[k].test_file);
    assert(a.no_duplicates()) by {
        assert forall|i: int, j: int| 0 <= i < a.len() && 0 <= j < a.len() && i != j implies a[i]
            != a[j] by {
            if i < j {
                assert(list[i].test_file != list[j].test_file);
            } else {
                assert(list[j].test_file != list[i].test_file);
            }
        }
    }
    a.unique_seq_to_set();
    b.lemma_cardinality_of_set();
    assert forall|f: Seq<char>| a.to_set().contains(f) implies b.to_set().contains(f) by {
        let i = choose|i: int| 0 <= i < a.len() && a[i] == f;
        assert(list[i].test_file == f);
        assert(names_test(list, f) && names_test(out, f));
        let j = choose|j: int| 0 <= j < out.len() && #[trigger] out[j].test_file == f;
        assert(b[j] == f);
    }
    vstd::seq_lib::seq_to_set_is_finite(b);
    vstd::set_lib::lemma_len_subset(a.to_set(), b.to_set());
}

/// The graph adds to the heuristics, and takes nothing away: unless the list is full, the test
/// files with the graph are those that the heuristics alone report, the changed Rust files with
/// inline tests, and the test files that import a changed source file over a few files.
pub proof fn graph_adds_to_the_heuristics(
    alone: Seq<Finding>,
    out: Seq<Finding>,
    files: Files,
    edges: Set<Edge>,
    changed: Seq<Seq<char>>,
)
    requires
        is_top(alone, heuristic_findings(files, changed, changed.len() as int)),
        is_graph_outcome(out, files, edges, changed),
        out.len() < RESULT_CAP,
    ensures
        forall|f: Seq<char>| #[trigger]
            names_test(out, f) <==> {
                ||| names_test(alone, f)
                ||| exists|k: int|
                    0 <= k < changed.len() && !is_test(#[trigger] changed[k]) && tests_itself(
                        files,
                        changed[k],
                    ) && f == changed[k]
                ||| exists|k: int|
                    0 <= k < changed.len() && !is_test(#[trigger] changed[k]) && is_importer(
                        edges,
                        changed[k],
                        f,
                    )
            },
{
    let n = changed.len() as int;
    let list = heuristic_findings(files, changed, n);
    heuristics_find_the_guessed(files, changed, n);
    graph_outcome_is_the_selection(out, files, edges, changed);
    assert forall|f: Seq<char>| is_guessed(files, changed, n, f) implies is_selected(
        files,
        edges,
        changed,
        f,
    ) by {
        reveal(guesses);
        let k = choose|k: int| 0 <= k < n && guesses(files, #[trigger] changed[k], f);
        assert(selects(files, edges, changed[k], f));
    }
    assert forall|f: Seq<char>| #[trigger] names_test(list, f) implies names_test(out, f) by {
        assert(is_guessed(files, changed, n, f));
    }
    distinct_files_need_room(list, out);
    let order = choose|order: Seq<int>| #[trigger]
        is_ranking(finding_keys(list), order) && alone == capped(arranged(list, order));
    assert forall|f: Seq<char>| #[trigger] names_test(alone, f) <==> names_test(list, f) by {
        if names_test(alone, f) {
            let a = choose|a: int| 0 <= a < alone.len() && #[trigger] alone[a].test_file == f;
            assert(list[order[a]].test_file == f);
        }
        if names_test(list, f) {
            let i = choose|i: int| 0 <= i < list.len() && #[trigger] list[i].test_file == f;
            ranking_is_complete(finding_keys(list), order, i);
            let a = choose|a: int| 0 <= a < order.len() && order[a] == i;
            assert(alone[a].test_file == f);
        }
    }
    assert forall|f: Seq<char>| #[trigger] names_test(out, f) <==> {
        ||| names_test(alone, f)
        ||| exists|k: int|
            0 <= k < changed.len() && !is_test(#[trigger] changed[k]) && tests_itself(
                files,
                changed[k],
            ) && f == changed[k]
        ||| exists|k: int|
            0 <= k < changed.len() && !is_test(#[trigger] changed[k]) && is_importer(
                edges,
                changed[k],
                f,
            )
    } by {
        if names_test(out, f) {
            let k = choose|k: int|
                0 <= k < changed.len() && selects(files, edges, #[trigger] changed[k], f);
            if listed(by_naming(files, changed[k]), f) || listed(
                by_proximity(files, changed[k]),
                f,
            ) {
                reveal(guesses);
                assert(guesses(files, changed[k], f));
                assert(is_guessed(files, changed, n, f));
                assert(names_test(list, f));
                assert(names_test(alone, f));
            }
        }
        if names_test(alone, f) {
            assert(names_test(list, f));
        }
        if exists|k: int|
            0 <= k < changed.len() && !is_test(#[trigger] changed[k]) && tests_itself(
                files,
                changed[k],
            ) && f == changed[k] {
            let k = choose|k: int|
                0 <= k < changed.len() && !is_test(#[trigger] changed[k]) && tests_itself(
                    files,
                    changed[k],
                ) && f == changed[k];
            assert(selects(files, edges, changed[k], f));
        }
        if exists|k: int|
            0 <= k < changed.len() && !is_test(#[trigger] changed[k]) && is_importer(
                edges,
                changed[k],
                f,
            ) {
            let k = choose|k: int|
                0 <= k < changed.len() && !is_test(#[trigger] changed[k]) && is_importer(
                    edges,
                    changed[k],
                    f,
                );
            assert(selects(files, edges, changed[k], f));
        }
    }
}

// ---------------------------------------------------------------------------------------------
// One outcome only
// ---------------------------------------------------------------------------------------------
proof fn signals_are_unique(a: Seq<(Seq<char>, u64)>, b: Seq<(Seq<char>, u64)>, obs: Seq<Finding>)
    requires
        is_signals(a, obs),
        is_signals(b, obs),
    ensures
        a == b,
{
    let keys = signal_keys(raw_signals(obs));
    let p = choose|p: Seq<int>| #[trigger]
        is_ranking(keys, p) && a == arranged(raw_signals(obs), p);
    let q = choose|q: Seq<int>| #[trigger]
        is_ranking(keys, q) && b == arranged(raw_signals(obs), q);
    ranking_is_unique(keys, p, q);
}

/// The same observations combine to the same finding.
pub proof fn combination_is_unique(r: Finding, s: Finding, obs: Seq<Finding>)
    requires
        is_combination(r, obs),
        is_combination(s, obs),
    ensures
        r == s,
{
    let keys = finding_keys(obs);
    let p = choose|p: Seq<int>| #[trigger]
        is_ranking(keys, p) && {
            let sorted = arranged(obs, p);
            &&& r.test_file == sorted[0].test_file
            &&& r.strategy == sorted[0].strategy
            &&& r.source_file == sorted[0].source_file
            &&& r.confidence == noisy_or(confidences(sorted))
            &&& is_signals(r.signals, sorted)
        };
    let q = choose|q: Seq<int>| #[trigger]
        is_ranking(keys, q) && {
            let sorted = arranged(obs, q);
            &&& s.test_file == sorted[0].test_file
            &&& s.strategy == sorted[0].strategy
            &&& s.source_file == sorted[0].source_file
            &&& s.confidence == noisy_or(confidences(sorted))
            &&& is_signals(s.signals, sorted)
        };
    ranking_is_unique(keys, p, q);
    signals_are_unique(r.signals, s.signals, arranged(obs, p));
}

proof fn about_joined(a: Seq<Finding>, b: Seq<Finding>, f: Seq<char>, n: int)
    requires
        0 <= n <= b.len(),
    ensures
        about(a + b, f, a.len() + n) == about(a, f, a.len() as int) + about(b, f, n),
    decreases n,
{
    if n > 0 {
        about_joined(a, b, f, n - 1);
        assert((a + b)[a.len() + n - 1] == b[n - 1]);
        assert(about(a + b, f, a.len() + n) =~= about(a, f, a.len() as int) + about(b, f, n));
    } else {
        about_front(a, b, f, a.len() as int);
        assert(about(a + b, f, a.len() + n) =~= about(a, f, a.len() as int) + about(b, f, n));
    }
}

proof fn about_front(a: Seq<Finding>, b: Seq<Finding>, f: Seq<char>, n: int)
    requires
        0 <= n <= a.len(),
    ensures
        about(a + b, f, n) == about(a, f, n),
    decreases n,
{
    if n > 0 {
        about_front(a, b, f, n - 1);
    }
}

/// One observation of each file of a list without repetitions holds at most one of `f`.
proof fn about_observations(
    files: Seq<Seq<char>>,
    confidence: u64,
    strategy: Seq<char>,
    source: Seq<char>,
    f: Seq<char>,
    n: int,
)
    requires
        files.no_duplicates(),
        0 <= n <= files.len(),
    ensures
        about(observations(files, confidence, strategy, source), f, n) == if listed(
            files.take(n),
            f,
        ) {
            seq![observed(f, confidence, strategy, source)]
        } else {
            Seq::empty()
        },
    decreases n,
{
    let obs = observations(files, confidence, strategy, source);
    if n > 0 {
        about_observations(files, confidence, strategy, source, f, n - 1);
        let before = files.take(n - 1);
        let now = files.take(n);
        if files[n - 1] == f {
            assert(now[n - 1] == f);
            assert(listed(now, f));
            if listed(before, f) {
                let i = choose|i: int| 0 <= i < before.len() && #[trigger] before[i] == f;
                assert(files[i] == files[n - 1]);
            }
            assert(about(obs, f, n) =~= seq![
                observed(f, confidence, strategy, source),
            ]);
        } else {
            if listed(before, f) {
                let i = choose|i: int| 0 <= i < before.len() && #[trigger] before[i] == f;
                assert(now[i] == f);
            }
            if listed(now, f) {
                let i = choose|i: int| 0 <= i < now.len() && #[trigger] now[i] == f;
                assert(before[i] == f);
            }
        }
    }
}

/// Two lists of the importers of one file lead to the same observations of `f`.
proof fn about_importers(
    a: Seq<Seq<char>>,
    b: Seq<Seq<char>>,
    edges: Set<Edge>,
    source: Seq<char>,
    f: Seq<char>,
)
    requires
        is_importer_list(a, edges, source),
        is_importer_list(b, edges, source),
    ensures
        about(
            observations(a, GRAPH_CONFIDENCE, "import_graph"@, source),
            f,
            a.len() as int,
        ) == about(
            observations(b, GRAPH_CONFIDENCE, "import_graph"@, source),
            f,
            b.len() as int,
        ),
{
    if is_test(source) {
        assert(a =~= b);
    } else {
        about_observations(a, GRAPH_CONFIDENCE, "import_graph"@, source, f, a.len() as int);
        about_observations(b, GRAPH_CONFIDENCE, "import_graph"@, source, f, b.len() as int);
        assert(a.take(a.len() as int) =~= a);
        assert(b.take(b.len() as int) =~= b);
        assert(listed(a, f) == listed(b, f));
    }
}

proof fn about_graph_observations(
    a: Seq<Seq<Seq<char>>>,
    b: Seq<Seq<Seq<char>>>,
    edges: Set<Edge>,
    changed: Seq<Seq<char>>,
    n: int,
    f: Seq<char>,
)
    requires
        0 <= n <= a.len(),
        n <= b.len(),
        n <= changed.len(),
        forall|k: int| 0 <= k < n ==> is_importer_list(#[trigger] a[k], edges, changed[k]),
        forall|k: int| 0 <= k < n ==> is_importer_list(#[trigger] b[k], edges, changed[k]),
    ensures
        ({
            let x = graph_observations(a, changed, n);
            let y = graph_observations(b, changed, n);
            about(x, f, x.len() as int) == about(y, f, y.len() as int)
        }),
    decreases n,
{
    if n > 0 {
        about_graph_observations(a, b, edges, changed, n - 1, f);
        let source = changed[n - 1];
        let x = observations(a[n - 1], GRAPH_CONFIDENCE, "import_graph"@, source);
        let y = observations(b[n - 1], GRAPH_CONFIDENCE, "import_graph"@, source);
        about_joined(graph_observations(a, changed, n - 1), x, f, x.len() as int);
        about_joined(graph_observations(b, changed, n - 1), y, f, y.len() as int);
        about_importers(a[n - 1], b[n - 1], edges, source, f);
    }
}

/// Two accounts of what the graph observes agree on each test file.
proof fn graph_parts_agree(
    a: Seq<Finding>,
    b: Seq<Finding>,
    edges: Set<Edge>,
    changed: Seq<Seq<char>>,
    f: Seq<char>,
)
    requires
        is_graph_part(a, edges, changed, changed.len() as int),
        is_graph_part(b, edges, changed, changed.len() as int),
    ensures
        about(a, f, a.len() as int) == about(b, f, b.len() as int),
{
    let n = changed.len() as int;
    let p = choose|lists: Seq<Seq<Seq<char>>>|
        lists.len() == n && (forall|k: int|
            0 <= k < n ==> is_importer_list(#[trigger] lists[k], edges, changed[k])) && a
            == #[trigger] graph_observations(lists, changed, n);
    let q = choose|lists: Seq<Seq<Seq<char>>>|
        lists.len() == n && (forall|k: int|
            0 <= k < n ==> is_importer_list(#[trigger] lists[k], edges, changed[k])) && b
            == #[trigger] graph_observations(lists, changed, n);
    about_graph_observations(p, q, edges, changed, n, f);
}

/// A short outcome holds what every other outcome of the same observations holds.
proof fn outcome_within(a: Seq<Finding>, b: Seq<Finding>, x: Seq<Finding>, y: Seq<Finding>, i: int)
    requires
        is_outcome(a, x),
        is_outcome(b, y),
        b.len() < RESULT_CAP,
        forall|f: Seq<char>| #[trigger]
            about(x, f, x.len() as int) == about(y, f, y.len() as int),
        0 <= i < a.len(),
    ensures
        b.contains(a[i]),
{
    let f = a[i].test_file;
    findings_are_combinations(a, x, i);
    same_about_same_names(x, y, f);
    short_outcome_is_complete(b, y, f);
    let j = choose|j: int|
        0 <= j < b.len() && (#[trigger] b[j]).test_file == f && is_combination(
            b[j],
            about(y, f, y.len() as int),
        );
    combination_is_unique(a[i], b[j], about(x, f, x.len() as int));
}

proof fn same_about_same_names(x: Seq<Finding>, y: Seq<Finding>, f: Seq<char>)
    requires
        about(x, f, x.len() as int) == about(y, f, y.len() as int),
    ensures
        names_test(x, f) == names_test(y, f),
        files_in(x, x.len() as int).contains(f) == files_in(y, y.len() as int).contains(f),
{
    about_is_about(x, f, x.len() as int);
    about_is_about(y, f, y.len() as int);
    files_are_named(x, x.len() as int, f);
    files_are_named(y, y.len() as int, f);
}

proof fn same_count(x: Seq<Finding>, y: Seq<Finding>)
    requires
        forall|f: Seq<char>| #[trigger]
            about(x, f, x.len() as int) == about(y, f, y.len() as int),
    ensures
        files_in(x, x.len() as int).len() == files_in(y, y.len() as int).len(),
{
    let p = files_in(x, x.len() as int);
    let q = files_in(y, y.len() as int);
    files_are_distinct(x, x.len() as int);
    files_are_distinct(y, y.len() as int);
    p.unique_seq_to_set();
    q.unique_seq_to_set();
    assert forall|f: Seq<char>| p.to_set().contains(f) <==> q.to_set().contains(f) by {
        assert(about(x, f, x.len() as int) == about(y, f, y.len() as int));
        same_about_same_names(x, y, f);
    }
    assert(p.to_set() =~= q.to_set());
}

/// The order in which importers are found makes no difference: two outcomes for the same change
/// hold the same findings, unless the list is full.
pub proof fn graph_outcome_is_unique(
    a: Seq<Finding>,
    b: Seq<Finding>,
    files: Files,
    edges: Set<Edge>,
    changed: Seq<Seq<char>>,
)
    requires
        is_graph_outcome(a, files, edges, changed),
        is_graph_outcome(b, files, edges, changed),
        a.len() < RESULT_CAP,
    ensures
        same_findings(a, b),
{
    let n = changed.len() as int;
    let own = all_file_observations(files, changed, n);
    let p = choose|part: Seq<Finding>|
        is_graph_part(part, edges, changed, n) && is_outcome(a, #[trigger] (own + part));
    let q = choose|part: Seq<Finding>|
        is_graph_part(part, edges, changed, n) && is_outcome(b, #[trigger] (own + part));
    let x = own + p;
    let y = own + q;
    assert forall|f: Seq<char>| #[trigger] about(x, f, x.len() as int) == about(
        y,
        f,
        y.len() as int,
    ) by {
        about_joined(own, p, f, p.len() as int);
        about_joined(own, q, f, q.len() as int);
        graph_parts_agree(p, q, edges, changed, f);
    }
    same_count(x, y);
    outcome_covers_observations(a, x);
    outcome_covers_observations(b, y);
    assert(a.len() == files_in(x, x.len() as int).len());
    assert forall|z: Finding| #[trigger] a.contains(z) <==> b.contains(z) by {
        if a.contains(z) {
            let i = choose|i: int| 0 <= i < a.len() && a[i] == z;
            outcome_within(a, b, x, y, i);
        }
        if b.contains(z) {
            let i = choose|i: int| 0 <= i < b.len() && b[i] == z;
            outcome_within(b, a, y, x, i);
        }
    }
}

// ---------------------------------------------------------------------------------------------
// With a cache
// ---------------------------------------------------------------------------------------------
proof fn tests_need_no_graph(
    part: Seq<Finding>,
    some: Set<Edge>,
    other: Set<Edge>,
    changed: Seq<Seq<char>>,
)
    requires
        !any_source(changed, changed.len() as int),
        is_graph_part(part, some, changed, changed.len() as int),
    ensures
        is_graph_part(part, other, changed, changed.len() as int),
{
    let n = changed.len() as int;
    let lists = choose|lists: Seq<Seq<Seq<char>>>|
        lists.len() == n && (forall|k: int|
            0 <= k < n ==> is_importer_list(#[trigger] lists[k], some, changed[k])) && part
            == #[trigger] graph_observations(lists, changed, n);
    assert forall|k: int| 0 <= k < n implies is_importer_list(
        #[trigger] lists[k],
        other,
        changed[k],
    ) by {
        assert(is_test(changed[k]));
        assert(is_importer_list(lists[k], some, changed[k]));
    }
}

/// A truthful cache changes no result: the findings with it are those without it, unless the list
/// is full.
pub proof fn cache_changes_no_result(
    tree: &ProjectTree,
    changed: Seq<Seq<char>>,
    files: Seq<CachedFile>,
    plain: Seq<Finding>,
    cached: CachedAffected,
)
    requires
        is_truthful(tree, files),
        is_graph_outcome(plain, tree@, graph_edges(tree), changed),
        is_cached_outcome(cached, tree, changed, files),
        plain.len() < RESULT_CAP,
    ensures
        same_findings(plain, cached.affected.deep_view()),
{
    let out = cached.affected.deep_view();
    let edges = graph_edges(tree);
    let n = changed.len() as int;
    match cached.build {
        Some(build) => {
            truthful_cache_gives_the_graph(tree, files, build);
        },
        None => {
            let own = all_file_observations(tree@, changed, n);
            let part = choose|part: Seq<Finding>|
                is_graph_part(part, Set::empty(), changed, n) && is_outcome(
                    out,
                    #[trigger] (own + part),
                );
            tests_need_no_graph(part, Set::empty(), edges, changed);
            assert(is_outcome(out, own + part));
        },
    }
    graph_outcome_is_unique(plain, out, tree@, edges, changed);
}

/// The findings with an empty cache, and those with what that first run wrote into it, are those
/// without a cache, as long as nothing changes in between and the list is not full.
pub proof fn cached_runs_agree(
    tree: &ProjectTree,
    changed: Seq<Seq<char>>,
    plain: Seq<Finding>,
    first: CachedAffected,
    second: CachedAffected,
)
    requires
        is_plain(tree@),
        is_graph_outcome(plain, tree@, graph_edges(tree), changed),
        is_cached_outcome(first, tree, changed, Seq::empty()),
        first.build is Some ==> is_cached_outcome(
            second,
            tree,
            changed,
            first.build->0.writes@,
        ),
        first.build is None ==> is_cached_outcome(second, tree, changed, Seq::empty()),
        plain.len() < RESULT_CAP,
    ensures
        same_findings(plain, first.affected.deep_view()),
        same_findings(plain, second.affected.deep_view()),
{
    empty_cache_is_truthful(tree);
    cache_changes_no_result(tree, changed, Seq::empty(), plain, first);
    match first.build {
        Some(build) => {
            first_build_writes_the_truth(tree, build);
            cache_changes_no_result(tree, changed, build.writes@, plain, second);
        },
        None => {
            cache_changes_no_result(tree, changed, Seq::empty(), plain, second);
        },
    }
}

} // verus!
