//! Artifacts of a run: which files are reports, and which give context.
use vstd::hash_map::StringHashMap;
use vstd::prelude::*;

use crate::config::{join_path, within};
use crate::paths::{components, parts_of};
use crate::ranking::{is_path_sorted, sort_paths};
use crate::text::{
    chars_of, concat2, extend_chars, find_char, has_prefix, has_text, index_of, is_listed, listed,
    opt_text, rows, split_chars, split_on, starts_with, text_of,
};

verus! {

/// Most entries below one top-level directory that are looked at for context.
pub const SUBTREE_ENTRY_LIMIT: usize = 1000;

/// Most context files that are reported.
pub const CONTEXT_FILE_CAP: usize = 50;

/// Names of directories that hold fixtures, not reports.
pub open spec fn excluded_segments() -> Seq<Seq<char>> {
    seq!["fixtures"@, "__snapshots__"@, "examples"@]
}

/// Whether a path leads through a directory of fixtures.
pub open spec fn is_fixture(path: Seq<char>) -> bool {
    exists|i: int|
        0 <= i < components(path).len() && listed(excluded_segments(), #[trigger] components(path)[i])
}

/// Whether a path leads through a directory of fixtures.
pub fn is_fixture_path(path: &str) -> (r: bool)
    ensures
        r == is_fixture(path@),
{
    let excluded = vec!["fixtures", "__snapshots__", "examples"];
    assert(excluded.deep_view() =~= excluded_segments());
    let parts = parts_of(path);
    let ghost all = components(path@);
    let mut i: usize = 0;
    while i < parts.len()
        invariant
            0 <= i <= parts@.len(),
            rows(parts@) == all,
            all == components(path@),
            excluded.deep_view() == excluded_segments(),
            forall|j: int| 0 <= j < i ==> !listed(excluded_segments(), #[trigger] all[j]),
        decreases parts@.len() - i,
    {
        assert(all[i as int] == parts@[i as int]@);
        if is_listed(&excluded, text_of(&parts[i]).as_str()) {
            assert(listed(excluded_segments(), all[i as int]));
            return true;
        }
        i += 1;
    }
    assert(all.len() == parts@.len());
    false
}

/// Names of directories whose files give no context.
pub open spec fn context_excluded() -> Seq<Seq<char>> {
    seq![
        "node_modules"@, ".git"@, ".gaffer"@, ".next"@, ".nuxt"@, ".turbo"@, ".svelte-kit"@,
        "target"@, "dist"@, "__pycache__"@, ".tox"@, ".venv"@, "venv"@, ".gradle"@, ".m2"@,
    ]
}

/// Whether the search for context leaves an entry out, with everything below it: by its name,
/// unless it is the root itself.
pub fn is_context_excluded(name: &str, depth: usize) -> (r: bool)
    ensures
        r == (depth > 0 && listed(context_excluded(), name@)),
{
    let names = vec![
        "node_modules", ".git", ".gaffer", ".next", ".nuxt", ".turbo", ".svelte-kit",
        "target", "dist", "__pycache__", ".tox", ".venv", "venv", ".gradle", ".m2",
    ];
    assert(names.deep_view() =~= context_excluded());
    depth > 0 && is_listed(&names, name)
}

// ---------------------------------------------------------------------------------------------
// Overrides
// ---------------------------------------------------------------------------------------------
/// The first `n` of `parts` as one path.
pub open spec fn prefix_of(parts: Seq<Seq<char>>, n: int) -> Seq<char>
    decreases n,
{
    if n <= 0 {
        Seq::empty()
    } else {
        let p = prefix_of(parts, n - 1);
        if p.len() > 0 {
            p.push('/') + parts[n - 1]
        } else {
            parts[n - 1]
        }
    }
}

/// Whether a segment names a directory: it is not empty, and has no wildcard.
pub open spec fn is_concrete(segment: Seq<char>) -> bool {
    segment.len() > 0 && index_of(segment, '*', 0) is None
}

/// Whether a prefix names at least one directory.
pub open spec fn has_concrete(prefix: Seq<char>) -> bool {
    exists|i: int|
        0 <= i < split_on(prefix, '/').len() && is_concrete(#[trigger] split_on(prefix, '/')[i])
}

/// The overrides that the first `n` prefixes of `parts` call for.
pub open spec fn overrides_upto(parts: Seq<Seq<char>>, n: int) -> Seq<Seq<char>>
    decreases n,
{
    if n <= 0 {
        Seq::empty()
    } else if has_concrete(prefix_of(parts, n)) {
        overrides_upto(parts, n - 1).push(prefix_of(parts, n) + "/"@)
    } else {
        overrides_upto(parts, n - 1)
    }
}

/// The directories that a pattern needs to be walked, whatever is ignored: each prefix of the
/// pattern that names at least one directory.
pub open spec fn dir_overrides(pattern: Seq<char>) -> Seq<Seq<char>> {
    let parts = split_on(pattern, '/');
    overrides_upto(parts, parts.len() - 1)
}

fn concrete_within(prefix: &Vec<char>) -> (r: bool)
    ensures
        r == has_concrete(prefix@),
{
    let parts = split_chars(prefix, '/');
    let ghost all = split_on(prefix@, '/');
    let mut i: usize = 0;
    while i < parts.len()
        invariant
            0 <= i <= parts@.len(),
            rows(parts@) == all,
            all == split_on(prefix@, '/'),
            forall|j: int| 0 <= j < i ==> !is_concrete(#[trigger] all[j]),
        decreases parts@.len() - i,
    {
        assert(all[i as int] == parts@[i as int]@);
        if parts[i].len() > 0 && find_char(&parts[i], '*', 0).is_none() {
            assert(is_concrete(all[i as int]));
            return true;
        }
        i += 1;
    }
    assert(all.len() == parts@.len());
    false
}

/// The directories that a pattern needs to be walked, whatever is ignored.
pub fn extract_dir_overrides(pattern: &str) -> (r: Vec<String>)
    ensures
        r.deep_view() == dir_overrides(pattern@),
{
    let parts = split_chars(&chars_of(pattern), '/');
    let ghost all = split_on(pattern@, '/');
    let mut r: Vec<String> = Vec::new();
    let mut prefix: Vec<char> = Vec::new();
    let mut n: usize = 0;
    assert(prefix@ =~= prefix_of(all, 0));
    assert(r.deep_view() =~= overrides_upto(all, 0));
    let last: usize = parts.len() - 1;
    while n < last
        invariant
            0 <= n <= last,
            last == parts@.len() - 1,
            rows(parts@) == all,
            all.len() == parts@.len(),
            prefix@ == prefix_of(all, n as int),
            r.deep_view() == overrides_upto(all, n as int),
        decreases last - n,
    {
        assert(all[n as int] == parts@[n as int]@);
        let ghost before = prefix@;
        if prefix.len() > 0 {
            prefix.push('/');
        } else {
            assert(before + all[n as int] =~= all[n as int]);
        }
        extend_chars(&mut prefix, &parts[n]);
        assert(prefix@ == prefix_of(all, n + 1));
        if concrete_within(&prefix) {
            let ghost known = r.deep_view();
            let item = concat2(text_of(&prefix).as_str(), "/");
            let ghost text = item@;
            r.push(item);
            assert(r.deep_view() =~= known.push(text));
        }
        n += 1;
    }
    r
}

// ---------------------------------------------------------------------------------------------
// Reports
// ---------------------------------------------------------------------------------------------
/// A file or directory that a walk came across.
pub struct WalkItem {
    pub path: String,
    /// The path below the project root, where it stands there.
    pub relative: Option<String>,
    pub is_file: bool,
    /// When it was last modified, in nanoseconds since the epoch, where that is known.
    pub mtime: Option<i64>,
}

/// Whether a file was modified at or after `not_before`.
pub open spec fn is_fresh(item: WalkItem, not_before: i64) -> bool {
    item.is_file && match item.mtime {
        Some(t) => t >= not_before,
        None => false,
    }
}

/// Whether a file was modified at or after `not_before`.
pub fn is_fresh_file(item: &WalkItem, not_before: i64) -> (r: bool)
    ensures
        r == is_fresh(*item, not_before),
{
    item.is_file && match item.mtime {
        Some(t) => t >= not_before,
        None => false,
    }
}

/// The fresh files among the first `n` items that are no fixtures.
pub open spec fn reports_upto(items: Seq<WalkItem>, not_before: i64, n: int) -> Seq<Seq<char>>
    decreases n,
{
    if n <= 0 {
        Seq::empty()
    } else if is_fresh(items[n - 1], not_before) && !is_fixture(items[n - 1].path@) {
        reports_upto(items, not_before, n - 1).push(items[n - 1].path@)
    } else {
        reports_upto(items, not_before, n - 1)
    }
}

/// The reports of a run among the files that match the report patterns: those that were written
/// during the run, and are no fixtures.
pub fn select_reports(items: &Vec<WalkItem>, not_before: i64) -> (r: Vec<String>)
    ensures
        r.deep_view() == reports_upto(items@, not_before, items@.len() as int),
{
    let mut r: Vec<String> = Vec::new();
    let mut n: usize = 0;
    assert(r.deep_view() =~= Seq::<Seq<char>>::empty());
    while n < items.len()
        invariant
            0 <= n <= items@.len(),
            r.deep_view() == reports_upto(items@, not_before, n as int),
        decreases items@.len() - n,
    {
        let item = &items[n];
        let ghost before = r.deep_view();
        if is_fresh_file(item, not_before) && !is_fixture_path(item.path.as_str()) {
            r.push(item.path.clone());
            assert(r.deep_view() =~= before.push(item.path@));
        }
        n += 1;
    }
    r
}

// ---------------------------------------------------------------------------------------------
// Context
// ---------------------------------------------------------------------------------------------
/// The top-level directory or file that an item belongs to.
pub open spec fn top_of(item: WalkItem) -> Option<Seq<char>> {
    match item.relative {
        Some(rel) => if components(rel@).len() > 0 {
            Some(components(rel@)[0])
        } else {
            None
        },
        None => None,
    }
}

/// How many of the first `n` items belong to `top`.
pub open spec fn count_top(items: Seq<WalkItem>, top: Seq<char>, n: int) -> nat
    decreases n,
{
    if n <= 0 {
        0
    } else {
        count_top(items, top, n - 1) + if top_of(items[n - 1]) == Some(top) {
            1nat
        } else {
            0nat
        }
    }
}

/// Whether item `i` gives context: its top-level directory is not crowded up to there, it was
/// written during the run, and it is no report.
pub open spec fn gives_context(
    items: Seq<WalkItem>,
    exclude: Seq<Seq<char>>,
    not_before: i64,
    i: int,
) -> bool {
    &&& match top_of(items[i]) {
        Some(top) => count_top(items, top, i + 1) <= SUBTREE_ENTRY_LIMIT,
        None => true,
    }
    &&& is_fresh(items[i], not_before)
    &&& !listed(exclude, items[i].path@)
}

/// An item's path below the project root, or its whole path where it does not stand there.
pub open spec fn shown_path(item: WalkItem) -> Seq<char> {
    match item.relative {
        Some(rel) => rel@,
        None => item.path@,
    }
}

/// The first context files among the first `n` items, up to the limit.
pub open spec fn context_upto(
    items: Seq<WalkItem>,
    exclude: Seq<Seq<char>>,
    not_before: i64,
    n: int,
) -> Seq<Seq<char>>
    decreases n,
{
    if n <= 0 {
        Seq::empty()
    } else {
        let prev = context_upto(items, exclude, not_before, n - 1);
        if prev.len() < CONTEXT_FILE_CAP && gives_context(items, exclude, not_before, n - 1) {
            prev.push(shown_path(items[n - 1]))
        } else {
            prev
        }
    }
}

/// `index` counts the first `n` items by their top-level directory.
spec fn counts_tops(index: Map<Seq<char>, usize>, items: Seq<WalkItem>, n: int) -> bool {
    forall|top: Seq<char>|
        if index.contains_key(top) {
            index[top] == #[trigger] count_top(items, top, n)
        } else {
            count_top(items, top, n) == 0
        }
}

proof fn count_bounded(items: Seq<WalkItem>, top: Seq<char>, n: int)
    ensures
        n >= 0 ==> count_top(items, top, n) <= n,
    decreases n,
{
    if n > 0 {
        count_bounded(items, top, n - 1);
    }
}

/// The files written during a run that are no reports, as far as they may help: at most
/// `CONTEXT_FILE_CAP`, none from below a crowded directory, in the order of their paths.
pub fn select_context_files(
    items: &Vec<WalkItem>,
    exclude: &Vec<String>,
    not_before: i64,
) -> (r: Vec<String>)
    ensures
        is_path_sorted(
            r.deep_view(),
            context_upto(items@, exclude.deep_view(), not_before, items@.len() as int),
        ),
        r@.len() <= CONTEXT_FILE_CAP,
{
    let mut found: Vec<String> = Vec::new();
    let mut counts: StringHashMap<usize> = StringHashMap::new();
    let ghost ex = exclude.deep_view();
    let mut n: usize = 0;
    assert(found.deep_view() =~= Seq::<Seq<char>>::empty());
    while n < items.len() && found.len() < CONTEXT_FILE_CAP
        invariant
            0 <= n <= items@.len(),
            ex == exclude.deep_view(),
            counts_tops(counts@, items@, n as int),
            found.deep_view() == context_upto(items@, ex, not_before, n as int),
            found@.len() <= CONTEXT_FILE_CAP,
        decreases items@.len() - n,
    {
        let item = &items[n];
        let ghost before = found.deep_view();
        let ghost c0 = counts@;
        let mut crowded = false;
        let mut top: Option<String> = None;
        if let Some(rel) = &item.relative {
            let parts = parts_of(rel.as_str());
            assert(rows(parts@).len() == parts@.len());
            if parts.len() > 0 {
                assert(rows(parts@)[0] == parts@[0]@);
                top = Some(text_of(&parts[0]));
            }
        }
        assert(opt_text(top) == top_of(*item));
        if let Some(t) = top {
            proof {
                count_bounded(items@, t@, n as int);
                let known = count_top(items@, t@, n as int);
            }
            let so_far: usize = match counts.get(t.as_str()) {
                Some(c) => *c,
                None => 0,
            };
            assert(so_far == count_top(items@, t@, n as int));
            crowded = so_far + 1 > SUBTREE_ENTRY_LIMIT;
            counts.insert(t, so_far + 1);
        }
        proof {
            assert forall|x: Seq<char>|
                if counts@.contains_key(x) {
                    counts@[x] == #[trigger] count_top(items@, x, n + 1)
                } else {
                    count_top(items@, x, n + 1) == 0
                } by {
                let known = count_top(items@, x, n as int);
                assert(c0.contains_key(x) || known == 0);
            }
        }
        if !crowded && is_fresh_file(item, not_before) && !has_text(exclude, item.path.as_str()) {
            let shown = match &item.relative {
                Some(rel) => rel.clone(),
                None => item.path.clone(),
            };
            let ghost text = shown@;
            found.push(shown);
            assert(found.deep_view() =~= before.push(text));
        }
        assert(before.len() < CONTEXT_FILE_CAP);
        n += 1;
    }
    proof {
        context_is_full(items@, ex, not_before, n as int, items@.len() as int);
        assert(found.deep_view().len() == found@.len());
    }
    let r = sort_paths(found);
    assert(r.deep_view().len() == r@.len());
    r
}

proof fn context_is_full(
    items: Seq<WalkItem>,
    exclude: Seq<Seq<char>>,
    not_before: i64,
    i: int,
    n: int,
)
    requires
        0 <= i <= n,
        i == n || context_upto(items, exclude, not_before, i).len() >= CONTEXT_FILE_CAP,
    ensures
        context_upto(items, exclude, not_before, n) == context_upto(items, exclude, not_before, i),
    decreases n - i,
{
    if i < n {
        context_is_full(items, exclude, not_before, i, n - 1);
    }
}

// ---------------------------------------------------------------------------------------------
// Report arguments
// ---------------------------------------------------------------------------------------------
/// Whether a `--report` argument is a pattern, not the path of one file.
pub open spec fn is_pattern(report: Seq<char>) -> bool {
    index_of(report, '*', 0) is Some || index_of(report, '?', 0) is Some
}

/// Whether a `--report` argument is a pattern, not the path of one file.
pub fn is_glob(report: &str) -> (r: bool)
    ensures
        r == is_pattern(report@),
{
    let v = chars_of(report);
    find_char(&v, '*', 0).is_some() || find_char(&v, '?', 0).is_some()
}

/// The path that a `--report` argument means.
pub open spec fn report_path(root: Seq<char>, report: Seq<char>) -> Seq<char> {
    if starts_with(report, "/"@) {
        report
    } else {
        within(root, report)
    }
}

/// The paths among the first `n` arguments.
pub open spec fn paths_among(root: Seq<char>, reports: Seq<Seq<char>>, n: int) -> Seq<Seq<char>>
    decreases n,
{
    if n <= 0 {
        Seq::empty()
    } else if is_pattern(reports[n - 1]) {
        paths_among(root, reports, n - 1)
    } else {
        paths_among(root, reports, n - 1).push(report_path(root, reports[n - 1]))
    }
}

/// The patterns among the first `n` arguments.
pub open spec fn patterns_among(reports: Seq<Seq<char>>, n: int) -> Seq<Seq<char>>
    decreases n,
{
    if n <= 0 {
        Seq::empty()
    } else if is_pattern(reports[n - 1]) {
        patterns_among(reports, n - 1).push(reports[n - 1])
    } else {
        patterns_among(reports, n - 1)
    }
}

/// Splits `--report` arguments into the files that they name, absolute or below `root`, and the
/// patterns that are left to search for.
pub fn split_reports(root: &str, reports: &Vec<String>) -> (r: (Vec<String>, Vec<String>))
    ensures
        r.0.deep_view() == paths_among(root@, reports.deep_view(), reports@.len() as int),
        r.1.deep_view() == patterns_among(reports.deep_view(), reports@.len() as int),
{
    let mut paths: Vec<String> = Vec::new();
    let mut patterns: Vec<String> = Vec::new();
    let mut n: usize = 0;
    assert(paths.deep_view() =~= Seq::<Seq<char>>::empty());
    assert(patterns.deep_view() =~= Seq::<Seq<char>>::empty());
    while n < reports.len()
        invariant
            0 <= n <= reports@.len(),
            paths.deep_view() == paths_among(root@, reports.deep_view(), n as int),
            patterns.deep_view() == patterns_among(reports.deep_view(), n as int),
        decreases reports@.len() - n,
    {
        let report = reports[n].as_str();
        assert(report@ == reports.deep_view()[n as int]);
        if is_glob(report) {
            let ghost before = patterns.deep_view();
            patterns.push(report.to_owned());
            assert(patterns.deep_view() =~= before.push(report@));
        } else {
            let ghost before = paths.deep_view();
            let path = if has_prefix(report, "/") {
                report.to_owned()
            } else {
                join_path(root, report)
            };
            paths.push(path);
            assert(paths.deep_view() =~= before.push(report_path(root@, report@)));
        }
        n += 1;
    }
    (paths, patterns)
}

} // verus!
