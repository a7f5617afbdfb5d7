//! What the history of a project, its files and its imports each observe.
use vstd::prelude::*;

use crate::affected::{
    answered, attempted_signals, by_naming, by_proximity, candidate_files, coverage_answer,
    failure_answer, file_observations, graph_observations, history_observations, is_importer_list,
    is_test, observations, unavailable_signals, HistoryAnswer, HistoryCandidate,
};
use crate::graph::{depends, Edge};
use crate::observations::{Finding, CERTAIN};
use crate::paths::canonical;
use crate::text::listed;
use crate::tree::Files;

verus! {

/// `list` holds an observation of `test` for the changed file `source` by `strategy`, with `tenths`
/// of certainty.
pub open spec fn observes(
    list: Seq<Finding>,
    test: Seq<char>,
    source: Seq<char>,
    strategy: Seq<char>,
    tenths: int,
) -> bool {
    exists|k: int|
        0 <= k < list.len() && is_observation(#[trigger] list[k], test, source, strategy, tenths)
}

/// `o` is such an observation.
pub open spec fn is_observation(
    o: Finding,
    test: Seq<char>,
    source: Seq<char>,
    strategy: Seq<char>,
    tenths: int,
) -> bool {
    &&& o.test_file == test
    &&& o.source_file == source
    &&& o.strategy == strategy
    &&& 10 * o.confidence == tenths * CERTAIN
}

proof fn listed_tests_are_observed(
    tests: Seq<Seq<char>>,
    confidence: u64,
    strategy: Seq<char>,
    source: Seq<char>,
    t: Seq<char>,
    tenths: int,
)
    requires
        10 * confidence == tenths * CERTAIN,
    ensures
        listed(tests, t) ==> observes(
            observations(tests, confidence, strategy, source),
            t,
            source,
            strategy,
            tenths,
        ),
{
    let o = observations(tests, confidence, strategy, source);
    if listed(tests, t) {
        let k = choose|k: int| 0 <= k < tests.len() && #[trigger] tests[k] == t;
        assert(is_observation(o[k], t, source, strategy, tenths));
    }
}

proof fn observed_in_either(
    a: Seq<Finding>,
    b: Seq<Finding>,
    t: Seq<char>,
    source: Seq<char>,
    strategy: Seq<char>,
    tenths: int,
)
    ensures
        observes(a + b, t, source, strategy, tenths) <==> observes(a, t, source, strategy, tenths)
            || observes(b, t, source, strategy, tenths),
{
    if observes(a, t, source, strategy, tenths) {
        let k = choose|k: int|
            0 <= k < a.len() && is_observation(#[trigger] a[k], t, source, strategy, tenths);
        assert((a + b)[k] == a[k]);
    }
    if observes(b, t, source, strategy, tenths) {
        let k = choose|k: int|
            0 <= k < b.len() && is_observation(#[trigger] b[k], t, source, strategy, tenths);
        assert((a + b)[a.len() + k] == b[k]);
    }
    if observes(a + b, t, source, strategy, tenths) {
        let k = choose|k: int|
            0 <= k < (a + b).len() && is_observation(
                #[trigger] (a + b)[k],
                t,
                source,
                strategy,
                tenths,
            );
        if k < a.len() {
            assert(is_observation(a[k], t, source, strategy, tenths));
        } else {
            assert(is_observation(b[k - a.len()], t, source, strategy, tenths));
        }
    }
}

/// A test that is named after a changed source file is observed as such, one that stands near it is
/// observed as such too, and so is a file that holds its own tests: no strategy waits for another
/// to find nothing.
pub proof fn every_strategy_observes(files: Files, source: Seq<char>, own: bool, t: Seq<char>)
    requires
        !is_test(source),
    ensures
        listed(by_naming(files, source), t) ==> observes(
            file_observations(files, source, own),
            t,
            source,
            "naming_convention"@,
            9,
        ),
        listed(by_proximity(files, source), t) ==> observes(
            file_observations(files, source, own),
            t,
            source,
            "directory_proximity"@,
            3,
        ),
        own ==> observes(
            file_observations(files, source, own),
            source,
            source,
            "rust_inline_tests"@,
            9,
        ),
{
    let named = by_naming(files, source);
    let near = by_proximity(files, source);
    let itself = if own {
        seq![source]
    } else {
        Seq::empty()
    };
    let (n, p, r) = ("naming_convention"@, "directory_proximity"@, "rust_inline_tests"@);
    let (nine, three) = (900_000_000_000_000_000u64, 300_000_000_000_000_000u64);
    let a = observations(named, nine, n, source);
    let b = observations(near, three, p, source);
    let c = observations(itself, nine, r, source);
    assert(file_observations(files, source, own) == a + b + c);
    listed_tests_are_observed(named, nine, n, source, t, 9);
    listed_tests_are_observed(near, three, p, source, t, 3);
    listed_tests_are_observed(itself, nine, r, source, source, 9);
    if own {
        assert(itself[0] == source);
    }
    observed_in_either(a, b, t, source, n, 9);
    observed_in_either(a + b, c, t, source, n, 9);
    observed_in_either(a, b, t, source, p, 3);
    observed_in_either(a + b, c, t, source, p, 3);
    observed_in_either(a + b, c, source, source, r, 9);
}

/// A test among those that import a changed file is observed for it.
pub proof fn every_importer_is_observed(
    lists: Seq<Seq<Seq<char>>>,
    changed: Seq<Seq<char>>,
    n: int,
    i: int,
    t: Seq<char>,
)
    requires
        0 <= i < n <= lists.len(),
        n <= changed.len(),
        listed(lists[i], t),
    ensures
        observes(graph_observations(lists, changed, n), t, changed[i], "import_graph"@, 7),
    decreases n,
{
    let g = "import_graph"@;
    let seven = 700_000_000_000_000_000u64;
    let before = graph_observations(lists, changed, n - 1);
    let last = observations(lists[n - 1], seven, g, changed[n - 1]);
    assert(graph_observations(lists, changed, n) == before + last);
    observed_in_either(before, last, t, changed[i], g, 7);
    if i < n - 1 {
        every_importer_is_observed(lists, changed, n - 1, i, t);
    } else {
        listed_tests_are_observed(lists[i], seven, g, changed[i], t, 7);
    }
}

/// The tests that import a changed file are those that reach it over three imports at most; a test
/// does not count as its own.
pub proof fn three_imports_at_most(
    list: Seq<Seq<char>>,
    edges: Set<Edge>,
    source: Seq<char>,
    t: Seq<char>,
)
    requires
        is_importer_list(list, edges, source),
    ensures
        is_test(source) ==> list.len() == 0,
        !is_test(source) ==> (listed(list, t) <==> is_test(t) && t != canonical(source) && depends(
            edges,
            t,
            canonical(source),
            3,
        )),
{
}

// ---------------------------------------------------------------------------------------------
// History
// ---------------------------------------------------------------------------------------------
/// `answer` names the test file `t`.
pub open spec fn names(answer: Option<Vec<HistoryCandidate>>, t: Seq<char>) -> bool {
    answer is Some && exists|k: int|
        0 <= k < answer->0@.len() && (#[trigger] answer->0@[k]).test_file@ == t
}

proof fn answers_are_observed(
    answer: Option<Vec<HistoryCandidate>>,
    confidence: u64,
    strategy: Seq<char>,
    source: Seq<char>,
    t: Seq<char>,
    by: Seq<char>,
    about: Seq<char>,
    tenths: int,
)
    ensures
        observes(answered(answer, confidence, strategy, source), t, about, by, tenths) <==> names(
            answer,
            t,
        ) && by == strategy && about == source && 10 * confidence == tenths * CERTAIN,
{
    let o = answered(answer, confidence, strategy, source);
    if let Some(list) = answer {
        let c = candidate_files(list@);
        assert(o == observations(c, confidence, strategy, source));
        if names(answer, t) && by == strategy && about == source && 10 * confidence == tenths
            * CERTAIN {
            let k = choose|k: int| 0 <= k < list@.len() && (#[trigger] list@[k]).test_file@ == t;
            assert(is_observation(o[k], t, about, by, tenths));
        }
        if observes(o, t, about, by, tenths) {
            let k = choose|k: int|
                0 <= k < o.len() && is_observation(#[trigger] o[k], t, about, by, tenths);
            assert(list@[k].test_file@ == t);
        }
    }
}

/// History connects a test with a changed source file with half of certainty where runs of the test
/// covered the file, and with four tenths where the test failed together with changes of it; and
/// only then. About a changed test file it is not asked.
pub proof fn history_is_weighed(
    changed: Seq<Seq<char>>,
    answers: Seq<HistoryAnswer>,
    n: int,
    t: Seq<char>,
    source: Seq<char>,
)
    requires
        0 <= n <= changed.len(),
        changed.len() == answers.len(),
    ensures
        observes(history_observations(changed, answers, n), t, source, "coverage_history"@, 5)
            <==> exists|i: int|
            0 <= i < n && #[trigger] changed[i] == source && !is_test(source) && names(
                answers[i].coverage,
                t,
            ),
        observes(history_observations(changed, answers, n), t, source, "failure_history"@, 4)
            <==> exists|i: int|
            0 <= i < n && #[trigger] changed[i] == source && !is_test(source) && names(
                answers[i].failure,
                t,
            ),
    decreases n,
{
    let (c, f) = ("coverage_history"@, "failure_history"@);
    reveal_strlit("coverage_history");
    reveal_strlit("failure_history");
    assert(c.len() == 16 && f.len() == 15);
    if n > 0 {
        history_is_weighed(changed, answers, n - 1, t, source);
        let before = history_observations(changed, answers, n - 1);
        let x = changed[n - 1];
        let a = answers[n - 1];
        if !is_test(x) {
            let (half, less) = (500_000_000_000_000_000u64, 400_000_000_000_000_000u64);
            let p = answered(a.coverage, half, c, x);
            let q = answered(a.failure, less, f, x);
            assert(history_observations(changed, answers, n) == before + p + q);
            observed_in_either(before, p, t, source, c, 5);
            observed_in_either(before + p, q, t, source, c, 5);
            observed_in_either(before, p, t, source, f, 4);
            observed_in_either(before + p, q, t, source, f, 4);
            answers_are_observed(a.coverage, half, c, x, t, c, source, 5);
            answers_are_observed(a.failure, less, f, x, t, c, source, 5);
            answers_are_observed(a.coverage, half, c, x, t, f, source, 4);
            answers_are_observed(a.failure, less, f, x, t, f, source, 4);
        }
    }
}

/// Names and directories are always looked at, imports where they are wanted and a changed file is
/// no test, and history where there is some. History is unavailable where there is none about any
/// changed source file, and there is a changed source file.
pub proof fn strategies_are_told(
    changed: Seq<Seq<char>>,
    answers: Seq<HistoryAnswer>,
    use_graph: bool,
)
    requires
        changed.len() == answers.len(),
    ensures
        ({
            let a = attempted_signals(changed, answers, use_graph);
            let u = unavailable_signals(changed, answers);
            let source = exists|i: int| 0 <= i < changed.len() && !is_test(#[trigger] changed[i]);
            let covered = exists|i: int|
                0 <= i < changed.len() && !is_test(#[trigger] changed[i]) && answers[i].coverage
                    is Some;
            let failed = exists|i: int|
                0 <= i < changed.len() && !is_test(#[trigger] changed[i]) && answers[i].failure
                    is Some;
            &&& a.len() == 2 + (if use_graph && source {
                1int
            } else {
                0
            }) + (if covered {
                1int
            } else {
                0
            }) + (if failed {
                1int
            } else {
                0
            })
            &&& a[0] == "naming_convention"@
            &&& a[1] == "directory_proximity"@
            &&& use_graph && source ==> a[2] == "import_graph"@
            &&& covered ==> a[if use_graph && source {
                3
            } else {
                2
            }] == "coverage_history"@
            &&& failed ==> a.last() == "failure_history"@
            &&& u.len() == (if source && !covered {
                1int
            } else {
                0
            }) + (if source && !failed {
                1int
            } else {
                0
            })
            &&& source && !covered ==> u[0] == "coverage_history"@
            &&& source && !failed ==> u.last() == "failure_history"@
        }),
{
    let n = changed.len() as int;
    if exists|i: int| 0 <= i < changed.len() && !is_test(#[trigger] changed[i]) {
        let i = choose|i: int| 0 <= i < changed.len() && !is_test(#[trigger] changed[i]);
        assert(coverage_answer(changed, answers, n, true) || coverage_answer(
            changed,
            answers,
            n,
            false,
        ));
        assert(failure_answer(changed, answers, n, true) || failure_answer(
            changed,
            answers,
            n,
            false,
        ));
    }
}

} // verus!
