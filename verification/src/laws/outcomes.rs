//! What a run comes to: its reports together, and the command that repeats it.
use vstd::prelude::*;

use crate::affected::package_manager;
use crate::commands::{
    command_line, coverage_upto, framework_upto, has_command, has_marker, is_shared_root,
    nothing_affected, shared_root_markers, test_files, tests_upto, AffectedComputation, DirFacts,
    ReportOutcome,
};
use crate::flaky::HistoricalTest;
use crate::framework::{frameworks_in, FrameworkView};
use crate::observations::Finding;
use crate::run::{executions_of, is_taken, TestEvent};
use crate::text::{contains, join, listed, opt_text};
use crate::tree::ProjectTree;

verus! {

/// The tests of a report; none of a report that holds none.
pub open spec fn tests_of(r: ReportOutcome) -> Seq<TestEvent> {
    match r {
        ReportOutcome::Tests { framework, tests } => tests@,
        _ => Seq::empty(),
    }
}

proof fn a_prefix_decides(a: Seq<ReportOutcome>, b: Seq<ReportOutcome>, n: int)
    requires
        0 <= n <= a.len(),
        n <= b.len(),
        forall|i: int| 0 <= i < n ==> a[i] == b[i],
    ensures
        tests_upto(a, n) == tests_upto(b, n),
        framework_upto(a, n) == framework_upto(b, n),
        coverage_upto(a, n) == coverage_upto(b, n),
    decreases n,
{
    if n > 0 {
        a_prefix_decides(a, b, n - 1);
    }
}

/// The tests of two lists of reports are those of the first and then those of the second, so that
/// no report displaces another; and one report gives its own tests.
pub proof fn reports_add_their_tests(a: Seq<ReportOutcome>, b: Seq<ReportOutcome>, r: ReportOutcome)
    ensures
        tests_upto(a + b, (a + b).len() as int) == tests_upto(a, a.len() as int) + tests_upto(
            b,
            b.len() as int,
        ),
        tests_upto(seq![r], 1) == tests_of(r),
    decreases b.len(),
{
    reveal_with_fuel(tests_upto, 2);
    assert(tests_upto(seq![r], 1) =~= tests_of(r));
    if b.len() == 0 {
        assert(a + b =~= a);
        assert(tests_upto(a, a.len() as int) + tests_upto(b, 0) =~= tests_upto(a, a.len() as int));
    } else {
        let q = b.drop_last();
        reports_add_their_tests(a, q, r);
        a_prefix_decides(a + b, a + q, (a + q).len() as int);
        a_prefix_decides(b, q, q.len() as int);
        assert((a + b)[(a + b).len() - 1] == b.last());
        assert(tests_upto(a + b, (a + b).len() as int) =~= tests_upto(a, a.len() as int)
            + tests_upto(b, b.len() as int));
    }
}

/// The framework of a run is that of the first report that names one.
pub proof fn the_first_framework_counts(list: Seq<ReportOutcome>, k: int, n: int)
    requires
        0 <= k < n <= list.len(),
        list[k] is Tests,
        list[k]->framework@ != "unknown"@,
        forall|j: int|
            0 <= j < k ==> ((#[trigger] list[j]) is Tests ==> list[j]->framework@ == "unknown"@),
    ensures
        framework_upto(list, n) == list[k]->framework@,
    decreases n,
{
    if n == k + 1 {
        no_framework_is_unknown(list, k);
    } else {
        the_first_framework_counts(list, k, n - 1);
    }
}

/// A run whose reports name no framework has an unknown one.
pub proof fn no_framework_is_unknown(list: Seq<ReportOutcome>, n: int)
    requires
        0 <= n <= list.len(),
        forall|j: int|
            0 <= j < n ==> ((#[trigger] list[j]) is Tests ==> list[j]->framework@ == "unknown"@),
    ensures
        framework_upto(list, n) == "unknown"@,
    decreases n,
{
    if n > 0 {
        no_framework_is_unknown(list, n - 1);
        assert(list[n - 1] is Tests ==> list[n - 1]->framework@ == "unknown"@);
    }
}

/// The last coverage report of a run counts.
pub proof fn the_last_coverage_counts(list: Seq<ReportOutcome>, k: int, n: int)
    requires
        0 <= k < n <= list.len(),
        list[k] is Coverage,
        forall|j: int| k < j < n ==> !((#[trigger] list[j]) is Coverage),
    ensures
        coverage_upto(list, n) == Some((list[k]->content@, list[k]->filename@)),
    decreases n,
{
    if n > k + 1 {
        assert(!(list[n - 1] is Coverage));
        the_last_coverage_counts(list, k, n - 1);
    }
}

/// The executions of a run are those with its name, in their order.
pub proof fn executions_bear_the_run(h: Seq<HistoricalTest>, run: Seq<char>, n: int)
    requires
        0 <= n <= h.len(),
    ensures
        ({
            let e = executions_of(h, run, n);
            &&& forall|k: int| 0 <= k < e.len() ==> 0 <= #[trigger] e[k] < n && h[e[k]].run_id@ == run
            &&& forall|a: int, b: int| 0 <= a < b < e.len() ==> #[trigger] e[a] < #[trigger] e[b]
            &&& forall|i: int| 0 <= i < n && (#[trigger] h[i]).run_id@ == run ==> e.contains(i)
        }),
    decreases n,
{
    if n > 0 {
        executions_bear_the_run(h, run, n - 1);
        let before = executions_of(h, run, n - 1);
        let e = executions_of(h, run, n);
        if h[n - 1].run_id@ == run {
            assert(e[before.len() as int] == n - 1);
        }
        assert forall|i: int| 0 <= i < n && (#[trigger] h[i]).run_id@ == run implies e.contains(
            i,
        ) by {
            if i < n - 1 {
                let k = choose|k: int| 0 <= k < before.len() && before[k] == i;
                assert(e[k] == i);
            }
        }
    }
}

// ---------------------------------------------------------------------------------------------
// Commands
// ---------------------------------------------------------------------------------------------
/// `words` starts a framework: JavaScript's through the package manager, the others by themselves.
pub open spec fn starts(words: Seq<Seq<char>>, f: FrameworkView, manager: Seq<char>) -> bool {
    match f {
        FrameworkView::Vitest(_) => words == seq![manager, "vitest"@],
        FrameworkView::Playwright(_) => words == seq![manager, "playwright"@, "test"@],
        FrameworkView::Jest(_) => words == seq![manager, "jest"@],
        FrameworkView::Pytest(_) => words == seq!["pytest"@],
        FrameworkView::Go => words == seq!["go"@, "test"@],
        FrameworkView::Rspec => words == seq!["rspec"@],
    }
}

/// The command that runs the affected tests starts the first framework of the project and names
/// every affected test, in order. There is one exactly where there is a framework and a test.
pub proof fn commands_run_the_affected_tests(
    manager: Seq<char>,
    frameworks: Seq<FrameworkView>,
    affected: Seq<Finding>,
)
    ensures
        command_line(manager, frameworks, affected) is Some <==> affected.len() > 0
            && frameworks.len() > 0,
        affected.len() > 0 && frameworks.len() > 0 ==> exists|words: Seq<Seq<char>>|
            #[trigger] starts(words, frameworks[0], manager) && command_line(
                manager,
                frameworks,
                affected,
            ) == Some(words + test_files(affected)),
        forall|k: int|
            0 <= k < affected.len() ==> #[trigger] test_files(affected)[k]
                == affected[k].test_file,
{
    if affected.len() > 0 && frameworks.len() > 0 {
        let line = command_line(manager, frameworks, affected)->0;
        let words = line.take(line.len() - affected.len());
        assert(line =~= words + test_files(affected));
        let f = frameworks[0];
        assert(f is Vitest ==> words =~= seq![manager, "vitest"@]);
        assert(f is Playwright ==> words =~= seq![manager, "playwright"@, "test"@]);
        assert(f is Jest ==> words =~= seq![manager, "jest"@]);
        assert(f is Pytest ==> words =~= seq!["pytest"@]);
        assert(f is Go ==> words =~= seq!["go"@, "test"@]);
        assert(f is Rspec ==> words =~= seq!["rspec"@]);
        assert(starts(words, f, manager));
    }
}

/// The command that is shown is the one that is run, with spaces between its words.
pub proof fn commands_are_shown_as_they_run(c: AffectedComputation, tree: &ProjectTree)
    requires
        has_command(c, tree),
        c.argv is Some,
    ensures
        c.argv->0.deep_view() == command_line(
            package_manager(tree@),
            frameworks_in(tree@),
            c.result.affected.deep_view(),
        )->0,
        opt_text(c.result.run_command) == Some(join(c.argv->0.deep_view(), " "@)),
{
}

/// Where no test is affected but a signal was unavailable, that is said, so that nobody takes the
/// silence for an answer.
pub proof fn silence_is_explained(unavailable: Seq<Seq<char>>)
    ensures
        unavailable.len() == 0 ==> nothing_affected(unavailable)
            == "[gaffer] No affected tests for the given files."@,
        unavailable.len() > 0 ==> nothing_affected(unavailable)
            == "[gaffer] No affected tests, but signals were unavailable: "@ + join(
            unavailable,
            ", "@,
        ) + ". Consider escalating scope."@,
{
}

// ---------------------------------------------------------------------------------------------
// Projects and payloads
// ---------------------------------------------------------------------------------------------
/// A directory is the root of several projects where a workspace file of pnpm, Turborepo, Nx,
/// Lerna or Go stands in it, where its `Cargo.toml` has a workspace, or where its `package.json`
/// does.
pub proof fn workspaces_mark_shared_roots(d: DirFacts, workspaces: bool)
    ensures
        is_shared_root(d, workspaces) <==> workspaces || (d.cargo_toml is Some && contains(
            d.cargo_toml->0@,
            "[workspace]"@,
        )) || exists|k: int|
            0 <= k < d.names@.len() && ((#[trigger] d.names@[k])@ == "pnpm-workspace.yaml"@
                || d.names@[k]@ == "turbo.json"@ || d.names@[k]@ == "nx.json"@ || d.names@[k]@
                == "lerna.json"@ || d.names@[k]@ == "go.work"@),
{
    let l = shared_root_markers();
    assert(l[0] == "pnpm-workspace.yaml"@ && l[1] == "turbo.json"@ && l[2] == "nx.json"@ && l[3]
        == "lerna.json"@ && l[4] == "go.work"@);
    let n = d.names@;
    if has_marker(n) {
        let k = choose|k: int| 0 <= k < n.len() && listed(l, #[trigger] n[k]@);
        assert(n[k]@ == l[0] || n[k]@ == l[1] || n[k]@ == l[2] || n[k]@ == l[3] || n[k]@ == l[4]);
    }
    if exists|k: int|
        0 <= k < n.len() && ((#[trigger] n[k])@ == l[0] || n[k]@ == l[1] || n[k]@ == l[2] || n[k]@
            == l[3] || n[k]@ == l[4]) {
        let k = choose|k: int|
            0 <= k < n.len() && ((#[trigger] n[k])@ == l[0] || n[k]@ == l[1] || n[k]@ == l[2]
                || n[k]@ == l[3] || n[k]@ == l[4]);
        assert(listed(l, n[k]@));
    }
}

/// The dashboard took a payload where it created it or will work on it.
pub proof fn taken_payloads_are_answered(status: u16)
    ensures
        is_taken(status) <==> status == 201 || status == 202,
{
}

} // verus!
