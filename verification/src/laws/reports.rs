//! Which files of a run are reports, and which give context.
use vstd::prelude::*;

use crate::discovery::{
    context_excluded, context_upto, count_top, dir_overrides, excluded_segments, gives_context,
    has_concrete, is_concrete, is_fixture, is_pattern, overrides_upto, prefix_of, reports_upto,
    top_of, WalkItem,
};
use crate::laws::modules::one_piece;
use crate::paths::components;
use crate::text::{index_of, listed, split_ends_in_piece, split_on};

verus! {

/// `path` leads through a directory named `fixtures`, `__snapshots__` or `examples`.
pub open spec fn leads_through_fixtures(path: Seq<char>) -> bool {
    exists|i: int|
        0 <= i < components(path).len() && (#[trigger] components(path)[i] == "fixtures"@
            || components(path)[i] == "__snapshots__"@ || components(path)[i] == "examples"@)
}

/// `item` is a file that was written at `start` or later.
pub open spec fn is_written_since(item: WalkItem, start: i64) -> bool {
    item.is_file && item.mtime is Some && start <= item.mtime->0
}

proof fn fixtures_lead_through(path: Seq<char>)
    ensures
        is_fixture(path) <==> leads_through_fixtures(path),
{
    let l = excluded_segments();
    let c = components(path);
    assert(l[0] == "fixtures"@ && l[1] == "__snapshots__"@ && l[2] == "examples"@);
    if is_fixture(path) {
        let i = choose|i: int| 0 <= i < c.len() && listed(l, #[trigger] c[i]);
        assert(c[i] == l[0] || c[i] == l[1] || c[i] == l[2]);
    }
    if leads_through_fixtures(path) {
        let i = choose|i: int|
            0 <= i < c.len() && (#[trigger] c[i] == l[0] || c[i] == l[1] || c[i] == l[2]);
        assert(listed(l, c[i]));
    }
}

proof fn first_reports(items: Seq<WalkItem>, start: i64, n: int, p: Seq<char>)
    requires
        0 <= n <= items.len(),
    ensures
        listed(reports_upto(items, start, n), p) <==> exists|i: int|
            0 <= i < n && #[trigger] items[i].path@ == p && is_written_since(items[i], start)
                && !leads_through_fixtures(p),
    decreases n,
{
    if n > 0 {
        first_reports(items, start, n - 1, p);
        let x = items[n - 1];
        fixtures_lead_through(x.path@);
        let before = reports_upto(items, start, n - 1);
        let all = reports_upto(items, start, n);
        if is_written_since(x, start) && !leads_through_fixtures(x.path@) {
            assert(all == before.push(x.path@));
            assert(all[before.len() as int] == x.path@);
            if listed(before, p) {
                let i = choose|i: int| 0 <= i < before.len() && #[trigger] before[i] == p;
                assert(all[i] == p);
            }
            if listed(all, p) {
                let i = choose|i: int| 0 <= i < all.len() && #[trigger] all[i] == p;
                if i < before.len() {
                    assert(before[i] == p);
                } else {
                    assert(items[n - 1].path@ == p);
                }
            }
        } else {
            assert(all == before);
        }
    }
}

/// The reports of a run are the files that were written since it started and lead through no
/// directory of fixtures.
pub proof fn reports_are_written_by_the_run(items: Seq<WalkItem>, start: i64, p: Seq<char>)
    ensures
        listed(reports_upto(items, start, items.len() as int), p) <==> exists|i: int|
            0 <= i < items.len() && #[trigger] items[i].path@ == p && is_written_since(
                items[i],
                start,
            ) && !leads_through_fixtures(p),
{
    first_reports(items, start, items.len() as int, p);
}

/// Reports keep the order in which they were found, and none is named twice that was found once.
pub proof fn reports_keep_their_order(a: Seq<WalkItem>, b: Seq<WalkItem>, start: i64)
    ensures
        reports_upto(a + b, start, (a + b).len() as int) == reports_upto(a, start, a.len() as int)
            + reports_upto(b, start, b.len() as int),
        a.len() == 1 && is_written_since(a[0], start) && !leads_through_fixtures(a[0].path@)
            ==> reports_upto(a, start, 1) == seq![a[0].path@],
    decreases b.len(),
{
    if a.len() == 1 {
        fixtures_lead_through(a[0].path@);
        reveal_with_fuel(reports_upto, 2);
        if is_written_since(a[0], start) && !leads_through_fixtures(a[0].path@) {
            assert(reports_upto(a, start, 1) =~= seq![a[0].path@]);
        }
    }
    if b.len() == 0 {
        assert(a + b =~= a);
        assert(reports_upto(a, start, a.len() as int) + reports_upto(b, start, 0) =~= reports_upto(
            a,
            start,
            a.len() as int,
        ));
    } else {
        let q = b.drop_last();
        reports_keep_their_order(a, q, start);
        prefix_decides(a + b, a + q, start, (a + q).len() as int);
        prefix_decides(b, q, start, q.len() as int);
        assert((a + b)[(a + b).len() - 1] == b.last());
        assert(reports_upto(a + b, start, (a + b).len() as int) =~= reports_upto(
            a,
            start,
            a.len() as int,
        ) + reports_upto(b, start, b.len() as int));
    }
}

proof fn prefix_decides(a: Seq<WalkItem>, b: Seq<WalkItem>, start: i64, n: int)
    requires
        0 <= n <= a.len(),
        n <= b.len(),
        forall|i: int| 0 <= i < n ==> a[i] == b[i],
    ensures
        reports_upto(a, start, n) == reports_upto(b, start, n),
    decreases n,
{
    if n > 0 {
        prefix_decides(a, b, start, n - 1);
    }
}

// ---------------------------------------------------------------------------------------------
// Context
// ---------------------------------------------------------------------------------------------
/// The items up to number `i` that stand below the same top-level directory as that item.
pub open spec fn neighbours(items: Seq<WalkItem>, i: int) -> Seq<WalkItem> {
    items.take(i + 1).filter(|x: WalkItem| top_of(x) == top_of(items[i]))
}

proof fn tops_are_counted(items: Seq<WalkItem>, top: Seq<char>, n: int)
    requires
        0 <= n <= items.len(),
    ensures
        count_top(items, top, n) == items.take(n).filter(
            |x: WalkItem| top_of(x) == Some(top),
        ).len(),
    decreases n,
{
    reveal(Seq::filter);
    if n > 0 {
        tops_are_counted(items, top, n - 1);
        assert(items.take(n).drop_last() =~= items.take(n - 1));
        assert(items.take(n).last() == items[n - 1]);
    }
}

/// Item `i` may give context: it was written since `start`, it is no report, and it is among the
/// first thousand items below its top-level directory.
pub open spec fn may_give_context(
    items: Seq<WalkItem>,
    reports: Seq<Seq<char>>,
    start: i64,
    i: int,
) -> bool {
    &&& is_written_since(items[i], start)
    &&& !listed(reports, items[i].path@)
    &&& top_of(items[i]) is Some ==> neighbours(items, i).len() <= 1000
}

proof fn context_is_given(items: Seq<WalkItem>, reports: Seq<Seq<char>>, start: i64, i: int)
    requires
        0 <= i < items.len(),
    ensures
        gives_context(items, reports, start, i) <==> may_give_context(items, reports, start, i),
{
    if let Some(top) = top_of(items[i]) {
        tops_are_counted(items, top, i + 1);
        let f = |x: WalkItem| top_of(x) == Some(top);
        let g = |x: WalkItem| top_of(x) == top_of(items[i]);
        assert(f =~= g);
    }
}

/// The path that item `i` is shown under: below the project root where it stands there.
pub open spec fn is_shown_as(item: WalkItem, p: Seq<char>) -> bool {
    if item.relative is Some {
        p == item.relative->0@
    } else {
        p == item.path@
    }
}

proof fn first_context(
    items: Seq<WalkItem>,
    reports: Seq<Seq<char>>,
    start: i64,
    n: int,
    p: Seq<char>,
)
    requires
        0 <= n <= items.len(),
    ensures
        context_upto(items, reports, start, n).len() <= 50,
        listed(context_upto(items, reports, start, n), p) ==> exists|i: int|
            0 <= i < n && is_shown_as(#[trigger] items[i], p) && may_give_context(
                items,
                reports,
                start,
                i,
            ),
        context_upto(items, reports, start, n).len() < 50 && (exists|i: int|
            0 <= i < n && is_shown_as(#[trigger] items[i], p) && may_give_context(
                items,
                reports,
                start,
                i,
            )) ==> listed(context_upto(items, reports, start, n), p),
    decreases n,
{
    if n > 0 {
        first_context(items, reports, start, n - 1, p);
        context_is_given(items, reports, start, n - 1);
        let before = context_upto(items, reports, start, n - 1);
        let all = context_upto(items, reports, start, n);
        if before.len() < 50 && may_give_context(items, reports, start, n - 1) {
            assert(all.drop_last() =~= before);
            if listed(before, p) {
                let i = choose|i: int| 0 <= i < before.len() && #[trigger] before[i] == p;
                assert(all[i] == p);
            }
            if is_shown_as(items[n - 1], p) {
                assert(all[before.len() as int] == p);
            }
            if listed(all, p) {
                let i = choose|i: int| 0 <= i < all.len() && #[trigger] all[i] == p;
                if i < before.len() {
                    assert(before[i] == p);
                } else {
                    assert(is_shown_as(items[n - 1], p));
                }
            }
        } else {
            assert(all == before);
        }
    }
}

/// At most 50 files are shown as context. Each was written by the run, is no report, and is among
/// the first thousand items below its top-level directory; and where fewer than 50 are shown, each
/// such file is.
pub proof fn context_is_limited(
    items: Seq<WalkItem>,
    reports: Seq<Seq<char>>,
    start: i64,
    p: Seq<char>,
)
    ensures
        context_upto(items, reports, start, items.len() as int).len() <= 50,
        listed(context_upto(items, reports, start, items.len() as int), p) ==> exists|i: int|
            0 <= i < items.len() && is_shown_as(#[trigger] items[i], p) && may_give_context(
                items,
                reports,
                start,
                i,
            ),
        context_upto(items, reports, start, items.len() as int).len() < 50 && (exists|i: int|
            0 <= i < items.len() && is_shown_as(#[trigger] items[i], p) && may_give_context(
                items,
                reports,
                start,
                i,
            )) ==> listed(context_upto(items, reports, start, items.len() as int), p),
{
    first_context(items, reports, start, items.len() as int, p);
}

/// The directories of dependencies, caches and build outputs give no context.
pub proof fn outputs_give_no_context(name: Seq<char>)
    ensures
        listed(context_excluded(), name) <==> name == "node_modules"@ || name == ".git"@ || name
            == ".gaffer"@ || name == ".next"@ || name == ".nuxt"@ || name == ".turbo"@ || name
            == ".svelte-kit"@ || name == "target"@ || name == "dist"@ || name == "__pycache__"@
            || name == ".tox"@ || name == ".venv"@ || name == "venv"@ || name == ".gradle"@ || name
            == ".m2"@,
{
    let l = context_excluded();
    assert(l[0] == "node_modules"@ && l[1] == ".git"@ && l[2] == ".gaffer"@ && l[3] == ".next"@
        && l[4] == ".nuxt"@ && l[5] == ".turbo"@ && l[6] == ".svelte-kit"@ && l[7] == "target"@
        && l[8] == "dist"@ && l[9] == "__pycache__"@ && l[10] == ".tox"@ && l[11] == ".venv"@
        && l[12] == "venv"@ && l[13] == ".gradle"@ && l[14] == ".m2"@);
}

// ---------------------------------------------------------------------------------------------
// Patterns
// ---------------------------------------------------------------------------------------------
proof fn index_finds(s: Seq<char>, c: char, from: int)
    requires
        0 <= from,
    ensures
        index_of(s, c, from) is Some <==> exists|k: int| from <= k < s.len() && #[trigger] s[k] == c,
    decreases s.len() - from,
{
    if from < s.len() && s[from] != c {
        index_finds(s, c, from + 1);
    }
}

/// An argument is a pattern exactly where it holds a `*` or a `?`.
pub proof fn wildcards_make_patterns(report: Seq<char>)
    ensures
        is_pattern(report) <==> report.contains('*') || report.contains('?'),
{
    index_finds(report, '*', 0);
    index_finds(report, '?', 0);
}

/// A pattern for files in one directory has that directory walked, whatever is ignored, unless the
/// directory is itself a wildcard. One for files in the project root has none walked.
pub proof fn named_directories_are_walked(d: Seq<char>, f: Seq<char>)
    requires
        d.len() > 0,
        !d.contains('/'),
        !f.contains('/'),
    ensures
        !d.contains('*') ==> dir_overrides(d + seq!['/'] + f) == seq![d + "/"@],
        d.contains('*') ==> dir_overrides(d + seq!['/'] + f).len() == 0,
        dir_overrides(f).len() == 0,
{
    assert forall|k: int| 0 <= k < d.len() implies #[trigger] d[k] != '/' by {
        assert(d.contains(d[k]));
    }
    assert forall|k: int| 0 <= k < f.len() implies #[trigger] f[k] != '/' by {
        assert(f.contains(f[k]));
    }
    one_piece(d);
    one_piece(f);
    split_ends_in_piece(d, f, '/');
    let p = d + seq!['/'] + f;
    assert(p =~= d.push('/') + f);
    let parts = split_on(p, '/');
    assert(parts =~= split_on(d, '/').push(f));
    index_finds(d, '*', 0);
    reveal_with_fuel(prefix_of, 2);
    reveal_with_fuel(overrides_upto, 2);
    assert(prefix_of(parts, 1) == d);
    let one = split_on(d, '/');
    assert(one[0] == d);
    if !d.contains('*') {
        assert(is_concrete(one[0]));
        assert(has_concrete(d));
        assert(dir_overrides(p) =~= seq![d + "/"@]);
    } else {
        assert(!is_concrete(one[0]));
        assert(!has_concrete(d));
    }
}

} // verus!
