//! Affected tests: from changed source files to the test files worth running.
//!
//! Strategies observe test files independently: by name, by directory, by Rust's inline test
//! modules, by imports and by history. Their observations combine by noisy-OR.
use vstd::prelude::*;

use crate::framework::{has_in_root, root_has};
use crate::graph::{depends, Edge, ImportGraph};
use crate::imports::rust::{has_inline_tests, shows_inline_tests};
use crate::observations::{
    capped, compose_results, finding_keys, is_outcome, observation, observed, AffectedTest, Finding,
    RESULT_CAP,
};
use crate::paths::{
    behind, behind_named, canonical, components, extension, extension_of, file_name, first_parts,
    is_absolute, is_dot_dot, last_parts, named_of, named_pieces, parent, parent_parts,
    parent_spelling, parts_of, path_of, path_text, same_parts, spelled_parent, stem, stem_of,
    with_part,
};
use crate::ranking::{arranged, is_ranking, rank_desc, reversed};
use crate::text::{
    chars_of, concat3, contains, copy_chars, ends_with, extend_chars, has, has_prefix, has_suffix,
    listed, lower, lower_of, rows, same, spells, split_chars, split_on, starts_with, text_of,
};
use crate::tree::{
    leads_anywhere, leads_to_dir, located, place, shelf, text_at, Files, ProjectTree, TreeEntry,
};
use crate::walker::{
    build_graph, build_graph_cached, graph_edges, is_cached_build, CachedBuild, CachedFile,
};

verus! {

/// Confidence of a test that is named after the changed file, or stands in it.
pub const NAMING_CONFIDENCE: u64 = 900_000_000_000_000_000;

/// Confidence of a test that imports the changed file.
pub const GRAPH_CONFIDENCE: u64 = 700_000_000_000_000_000;

/// Confidence of a test whose runs covered the changed file.
pub const COVERAGE_HISTORY_CONFIDENCE: u64 = 500_000_000_000_000_000;

/// Confidence of a test that failed in commits that touched the changed file.
pub const FAILURE_HISTORY_CONFIDENCE: u64 = 400_000_000_000_000_000;

/// Confidence of a test in a test directory next to the changed file.
pub const PROXIMITY_CONFIDENCE: u64 = 300_000_000_000_000_000;

/// Most entries that are looked at in one directory.
pub const DIR_ENTRY_LIMIT: usize = 1000;

/// Most imports between a test and the changed file.
pub const GRAPH_MAX_DEPTH: usize = 3;

// ---------------------------------------------------------------------------------------------
// Test files
// ---------------------------------------------------------------------------------------------
/// The endings of test file names.
pub open spec fn test_suffixes() -> Seq<Seq<char>> {
    seq![
        ".test.ts"@, ".test.tsx"@, ".test.js"@, ".test.jsx"@, ".test.mjs"@,
        ".spec.ts"@, ".spec.tsx"@, ".spec.js"@, ".spec.jsx"@, ".spec.mjs"@,
        "_test.go"@, "_test.rs"@, "_test.py"@,
    ]
}

/// The directories next to a source file that typically hold its tests.
pub open spec fn test_dirs() -> Seq<Seq<char>> {
    seq!["__tests__"@, "tests"@, "test"@, "spec"@]
}

/// Whether one of the first `n` test endings ends `name`.
pub open spec fn has_test_suffix(name: Seq<char>, n: int) -> bool
    decreases n,
{
    n > 0 && (has_test_suffix(name, n - 1) || ends_with(name, test_suffixes()[n - 1]))
}

/// Whether a path looks like that of a test file, whatever its case: by its ending, by the prefix
/// `test_` of its name, or as a Rust file below a `tests` directory.
pub open spec fn is_test(path: Seq<char>) -> bool {
    let low = lower(path);
    ||| has_test_suffix(low, test_suffixes().len() as int)
    ||| match file_name(components(low)) {
        Some(name) => starts_with(name, "test_"@),
        None => false,
    }
    ||| ends_with(low, ".rs"@) && (contains(low, "/tests/"@) || starts_with(low, "tests/"@))
}

fn suffix_list() -> (r: Vec<&'static str>)
    ensures
        r.deep_view() == test_suffixes(),
        r@.len() == 13,
{
    let r = vec![
        ".test.ts", ".test.tsx", ".test.js", ".test.jsx", ".test.mjs",
        ".spec.ts", ".spec.tsx", ".spec.js", ".spec.jsx", ".spec.mjs",
        "_test.go", "_test.rs", "_test.py",
    ];
    assert(r.deep_view() =~= test_suffixes());
    r
}

fn dir_list() -> (r: Vec<&'static str>)
    ensures
        r.deep_view() == test_dirs(),
        r@.len() == 4,
{
    let r = vec!["__tests__", "tests", "test", "spec"];
    assert(r.deep_view() =~= test_dirs());
    r
}

/// Whether a path looks like that of a test file.
pub fn is_test_file(path: &str) -> (r: bool)
    ensures
        r == is_test(path@),
{
    let low = lower_of(path);
    let suffixes = suffix_list();
    let mut n: usize = 0;
    while n < suffixes.len()
        invariant
            0 <= n <= suffixes@.len() == 13,
            suffixes.deep_view() == test_suffixes(),
            low@ == lower(path@),
            !has_test_suffix(low@, n as int),
        decreases suffixes@.len() - n,
    {
        assert(suffixes.deep_view()[n as int] == suffixes@[n as int]@);
        if has_suffix(low.as_str(), suffixes[n]) {
            assert(has_test_suffix(low@, n + 1));
            proof {
                suffixes_stay(low@, n + 1, 13);
            }
            return true;
        }
        n += 1;
    }
    let parts = parts_of(low.as_str());
    let k: usize = parts.len();
    if k > 0 {
        assert(rows(parts@).last() == parts@[k - 1]@);
        if !is_dot_dot(&parts[k - 1]) && has_prefix(text_of(&parts[k - 1]).as_str(), "test_") {
            return true;
        }
    }
    has_suffix(low.as_str(), ".rs") && (has(low.as_str(), "/tests/") || has_prefix(
        low.as_str(),
        "tests/",
    ))
}

proof fn suffixes_stay(name: Seq<char>, a: int, b: int)
    requires
        a <= b,
        has_test_suffix(name, a),
    ensures
        has_test_suffix(name, b),
    decreases b - a,
{
    if a < b {
        suffixes_stay(name, a, b - 1);
    }
}

/// Whether one of the first `n` files is no test file.
pub open spec fn any_source(files: Seq<Seq<char>>, n: int) -> bool {
    exists|k: int| 0 <= k < n && !is_test(#[trigger] files[k])
}

/// Whether at least one of the changed files is no test file, and so can be imported by one.
pub fn has_any_non_test_input(changed_files: &Vec<String>) -> (r: bool)
    ensures
        r == any_source(changed_files.deep_view(), changed_files@.len() as int),
{
    let mut k: usize = 0;
    while k < changed_files.len()
        invariant
            0 <= k <= changed_files@.len(),
            forall|j: int| 0 <= j < k ==> is_test(#[trigger] changed_files.deep_view()[j]),
        decreases changed_files@.len() - k,
    {
        if !is_test_file(changed_files[k].as_str()) {
            assert(!is_test(changed_files.deep_view()[k as int]));
            return true;
        }
        k += 1;
    }
    false
}

// ---------------------------------------------------------------------------------------------
// Where a changed file stands
// ---------------------------------------------------------------------------------------------
/// A directory: its components from the project root, and how it is spelled.
pub ghost struct Spot {
    pub dir: Seq<Seq<char>>,
    pub text: Seq<char>,
}

/// The pieces of the path of a changed file below the project root: of a relative path all, of
/// another one those behind the root; `None` where it does not start there.
pub open spec fn below(files: Files, source: Seq<char>) -> Option<Seq<Seq<char>>> {
    let pieces = split_on(source, '/');
    let n = files.home.len() as int;
    if !is_absolute(source) {
        Some(pieces)
    } else if n <= components(source).len() && components(source).take(n) == files.home {
        Some(behind(pieces, n))
    } else {
        None
    }
}

/// The directory of a changed file whose path has the given pieces.
pub open spec fn spot_of(pieces: Seq<Seq<char>>) -> Spot {
    Spot { dir: parent(named_pieces(pieces)), text: spelled_parent(pieces) }
}

/// The components of the path of a changed file from the root of the file system.
pub open spec fn whole_path(files: Files, source: Seq<char>) -> Seq<Seq<char>> {
    if is_absolute(source) {
        components(source)
    } else {
        files.home + components(source)
    }
}

/// A changed file below the project root.
struct Standing {
    parts: Vec<Vec<char>>,
    dir: Vec<Vec<char>>,
    text: String,
}

impl Standing {
    spec fn spot(&self) -> Spot {
        Spot { dir: rows(self.dir@), text: self.text@ }
    }
}

/// Whether a path starts at the root of the file system.
fn starts_at_root(path: &str) -> (r: bool)
    ensures
        r == is_absolute(path@),
{
    proof {
        reveal_strlit("/");
        if starts_with(path@, "/"@) {
            assert(path@.subrange(0, 1)[0] == "/"@[0]);
        }
        if is_absolute(path@) {
            assert(path@.subrange(0, 1) =~= "/"@);
        }
    }
    has_prefix(path, "/")
}

/// Where a changed file stands in the project.
fn standing(tree: &ProjectTree, source: &str) -> (r: Option<Standing>)
    ensures
        match r {
            Some(s) => below(tree@, source@) is Some && rows(s.parts@) == named_pieces(
                below(tree@, source@)->0,
            ) && s.spot() == spot_of(below(tree@, source@)->0),
            None => below(tree@, source@) is None,
        },
{
    let text = chars_of(source);
    let mut pieces = split_chars(&text, '/');
    if starts_at_root(source) {
        let whole = named_of(&pieces);
        let home = tree.home();
        let n: usize = home.len();
        assert(rows(home@).len() == n);
        assert(rows(whole@).len() == whole@.len());
        if n > whole.len() || !same_parts(&first_parts(&whole, n), home) {
            return None;
        }
        pieces = behind_named(&pieces, n);
    }
    let parts = named_of(&pieces);
    let dir = parent_parts(&parts);
    let text = parent_spelling(&pieces);
    Some(Standing { parts, dir, text })
}

/// The path `parts` below the directory of `s`, as the directory is spelled.
fn spell(s: &Standing, parts: &Vec<Vec<char>>) -> (r: String)
    requires
        s.dir@.len() <= parts@.len(),
    ensures
        r@ == spelled(s.spot(), rows(parts@)),
{
    let tail = path_text(&last_parts(parts, s.dir.len()));
    assert(rows(s.dir@).len() == s.dir@.len());
    if s.text.as_str().is_empty() {
        tail
    } else {
        concat3(s.text.as_str(), "/", tail.as_str())
    }
}

// ---------------------------------------------------------------------------------------------
// Naming convention
// ---------------------------------------------------------------------------------------------
/// The files in `dir` named `stem` with one of the test endings.
pub open spec fn named_after(dir: Seq<Seq<char>>, base: Seq<char>) -> Seq<Seq<Seq<char>>> {
    Seq::new(test_suffixes().len(), |k: int| dir.push(base + test_suffixes()[k]))
}

/// The same within the first `d` test directories that `dir` holds.
pub open spec fn named_in_test_dirs(
    files: Files,
    dir: Seq<Seq<char>>,
    base: Seq<char>,
    d: int,
) -> Seq<Seq<Seq<char>>>
    decreases d,
{
    if d <= 0 {
        Seq::empty()
    } else {
        let sub = dir.push(test_dirs()[d - 1]);
        if leads_to_dir(files, sub) {
            named_in_test_dirs(files, dir, base, d - 1) + named_after(sub, base)
        } else {
            named_in_test_dirs(files, dir, base, d - 1)
        }
    }
}

/// Where tests of a source file in `dir` called `name` are looked for, in order.
pub open spec fn naming_candidates(
    files: Files,
    dir: Seq<Seq<char>>,
    name: Seq<char>,
) -> Seq<Seq<Seq<char>>> {
    let python = if extension(name) == Some("py"@) {
        seq![dir.push("test_"@ + stem(name) + ".py"@)]
    } else {
        Seq::empty()
    };
    named_after(dir, stem(name)) + python + named_in_test_dirs(
        files,
        dir,
        stem(name),
        test_dirs().len() as int,
    )
}

/// The path `parts` below the directory `spot`, as the directory is spelled.
pub open spec fn spelled(spot: Spot, parts: Seq<Seq<char>>) -> Seq<char> {
    let tail = path_of(parts.skip(spot.dir.len() as int));
    if spot.text.len() == 0 {
        tail
    } else {
        spot.text + "/"@ + tail
    }
}

/// The first `n` candidates that lead to something.
pub open spec fn existing(
    files: Files,
    spot: Spot,
    candidates: Seq<Seq<Seq<char>>>,
    n: int,
) -> Seq<Seq<char>>
    decreases n,
{
    if n <= 0 {
        Seq::empty()
    } else if leads_anywhere(files, candidates[n - 1]) {
        existing(files, spot, candidates, n - 1).push(spelled(spot, candidates[n - 1]))
    } else {
        existing(files, spot, candidates, n - 1)
    }
}

/// The tests that are named after `source`.
pub open spec fn by_naming(files: Files, source: Seq<char>) -> Seq<Seq<char>> {
    match below(files, source) {
        Some(pieces) => match file_name(named_pieces(pieces)) {
            Some(name) => {
                let spot = spot_of(pieces);
                let list = naming_candidates(files, spot.dir, name);
                existing(files, spot, list, list.len() as int)
            },
            None => Seq::empty(),
        },
        None => Seq::empty(),
    }
}

proof fn existing_of_prefix(
    files: Files,
    spot: Spot,
    a: Seq<Seq<Seq<char>>>,
    b: Seq<Seq<Seq<char>>>,
    n: int,
)
    requires
        n <= a.len(),
        n <= b.len(),
        forall|k: int| 0 <= k < n ==> a[k] == b[k],
    ensures
        existing(files, spot, a, n) == existing(files, spot, b, n),
    decreases n,
{
    if n > 0 {
        existing_of_prefix(files, spot, a, b, n - 1);
    }
}

/// Adds `candidate` where it leads to something. `before` are the candidates so far.
fn push_existing(
    tree: &ProjectTree,
    s: &Standing,
    candidate: &Vec<Vec<char>>,
    found: &mut Vec<String>,
    Ghost(before): Ghost<Seq<Seq<Seq<char>>>>,
)
    requires
        old(found).deep_view() == existing(tree@, s.spot(), before, before.len() as int),
        s.dir@.len() <= candidate@.len(),
    ensures
        final(found).deep_view() == existing(
            tree@,
            s.spot(),
            before.push(rows(candidate@)),
            before.len() as int + 1,
        ),
{
    let ghost was = found.deep_view();
    let ghost next = before.push(rows(candidate@));
    proof {
        existing_of_prefix(tree@, s.spot(), before, next, before.len() as int);
    }
    if tree.has_any(candidate) {
        let path = spell(s, candidate);
        let ghost text = path@;
        found.push(path);
        assert(found.deep_view() =~= was.push(text));
    }
}

/// Adds the files in `dir` named after `base` that exist. `before` are the candidates so far.
fn push_named_after(
    tree: &ProjectTree,
    s: &Standing,
    dir: &Vec<Vec<char>>,
    base: &Vec<char>,
    suffixes: &Vec<&'static str>,
    found: &mut Vec<String>,
    Ghost(before): Ghost<Seq<Seq<Seq<char>>>>,
)
    requires
        old(found).deep_view() == existing(tree@, s.spot(), before, before.len() as int),
        suffixes.deep_view() == test_suffixes(),
        s.dir@.len() <= dir@.len(),
    ensures
        final(found).deep_view() == existing(
            tree@,
            s.spot(),
            before + named_after(rows(dir@), base@),
            (before + named_after(rows(dir@), base@)).len() as int,
        ),
{
    let ghost list = named_after(rows(dir@), base@);
    let mut k: usize = 0;
    assert(before + list.take(0) =~= before);
    while k < suffixes.len()
        invariant
            0 <= k <= suffixes@.len(),
            suffixes.deep_view() == test_suffixes(),
            list == named_after(rows(dir@), base@),
            s.dir@.len() <= dir@.len(),
            found.deep_view() == existing(
                tree@,
                s.spot(),
                before + list.take(k as int),
                before.len() + k,
            ),
        decreases suffixes@.len() - k,
    {
        assert(suffixes.deep_view()[k as int] == suffixes@[k as int]@);
        let mut name = copy_chars(base);
        extend_chars(&mut name, &chars_of(suffixes[k]));
        let path = with_part(dir, &name);
        let ghost so_far = before + list.take(k as int);
        assert(rows(path@).len() == path@.len());
        push_existing(tree, s, &path, found, Ghost(so_far));
        assert(so_far.push(rows(path@)) =~= before + list.take(k + 1));
        k += 1;
    }
    assert(list.take(k as int) =~= list);
}

/// The tests that are named after `source_file`.
pub fn find_by_naming_convention(tree: &ProjectTree, source_file: &str) -> (found: Vec<String>)
    ensures
        found.deep_view() == by_naming(tree@, source_file@),
{
    match standing(tree, source_file) {
        Some(s) => named_after_source(tree, &s),
        None => {
            let none: Vec<String> = Vec::new();
            assert(none.deep_view() =~= Seq::<Seq<char>>::empty());
            none
        },
    }
}

fn named_after_source(tree: &ProjectTree, s: &Standing) -> (found: Vec<String>)
    requires
        rows(s.dir@) == parent(rows(s.parts@)),
    ensures
        found.deep_view() == match file_name(rows(s.parts@)) {
            Some(name) => {
                let list = naming_candidates(tree@, rows(s.dir@), name);
                existing(tree@, s.spot(), list, list.len() as int)
            },
            None => Seq::empty(),
        },
{
    let mut found: Vec<String> = Vec::new();
    assert(found.deep_view() =~= Seq::<Seq<char>>::empty());
    let n: usize = s.parts.len();
    assert(n > 0 ==> rows(s.parts@).last() == s.parts@[n - 1]@);
    assert(rows(s.parts@).len() == n);
    if n == 0 || is_dot_dot(&s.parts[n - 1]) {
        return found;
    }
    let name = &s.parts[n - 1];
    let base = stem_of(name);
    let dir = &s.dir;
    let ghost spot = s.spot();
    let suffixes = suffix_list();
    let ghost first = named_after(rows(dir@), base@);
    assert(Seq::<Seq<Seq<char>>>::empty() + first =~= first);
    push_named_after(tree, s, dir, &base, &suffixes, &mut found, Ghost(Seq::empty()));
    let ghost mut list = first;
    let is_python = match extension_of(name) {
        Some(e) => spells(&e, "py"),
        None => false,
    };
    if is_python {
        let test_name = concat3("test_", text_of(&base).as_str(), ".py");
        let path = with_part(dir, &chars_of(test_name.as_str()));
        assert(rows(path@).len() == path@.len());
        push_existing(tree, s, &path, &mut found, Ghost(list));
        proof {
            assert(list.push(rows(path@)) =~= list + seq![rows(path@)]);
            list = list.push(rows(path@));
        }
    } else {
        assert(list =~= list + Seq::<Seq<Seq<char>>>::empty());
    }
    let dirs = dir_list();
    let ghost start = list;
    let mut d: usize = 0;
    assert(start + named_in_test_dirs(tree@, rows(dir@), base@, 0) =~= start);
    while d < dirs.len()
        invariant
            0 <= d <= dirs@.len() == 4,
            dirs.deep_view() == test_dirs(),
            suffixes.deep_view() == test_suffixes(),
            dir@ == s.dir@,
            spot == s.spot(),
            list == start + named_in_test_dirs(tree@, rows(dir@), base@, d as int),
            found.deep_view() == existing(tree@, spot, list, list.len() as int),
        decreases dirs@.len() - d,
    {
        assert(dirs.deep_view()[d as int] == dirs@[d as int]@);
        let sub = with_part(dir, &chars_of(dirs[d]));
        assert(rows(sub@).len() == sub@.len());
        if tree.has_dir(&sub) {
            push_named_after(tree, s, &sub, &base, &suffixes, &mut found, Ghost(list));
            proof {
                let more = named_after(rows(sub@), base@);
                assert(list + more =~= start + (named_in_test_dirs(
                    tree@,
                    rows(dir@),
                    base@,
                    d as int,
                ) + more));
                list = list + more;
            }
        }
        d += 1;
    }
    found
}

// ---------------------------------------------------------------------------------------------
// Directory proximity
// ---------------------------------------------------------------------------------------------
/// The entries directly in the directory at the place `at` among the first `n`.
pub open spec fn entries_in(files: Files, at: Seq<Seq<char>>, n: int) -> Seq<int>
    decreases n,
{
    if n <= 0 {
        Seq::empty()
    } else {
        let parts = components(shelf(files, at)[n - 1].path@);
        if parts.len() > 0 && parent(parts) == place(files, at) {
            entries_in(files, at, n - 1).push(n - 1)
        } else {
            entries_in(files, at, n - 1)
        }
    }
}

/// The test files among the first `n` of the entries `list`, as paths below `dir`.
pub open spec fn tests_among(
    entries: Seq<TreeEntry>,
    spot: Spot,
    list: Seq<int>,
    dir: Seq<Seq<char>>,
    n: int,
) -> Seq<Seq<char>>
    decreases n,
{
    if n <= 0 {
        Seq::empty()
    } else {
        let e = entries[list[n - 1]];
        let name = components(e.path@).last();
        if !e.is_dir && is_test(name) {
            tests_among(entries, spot, list, dir, n - 1).push(spelled(spot, dir.push(name)))
        } else {
            tests_among(entries, spot, list, dir, n - 1)
        }
    }
}

/// The test files among the entries of the directory `dir` that are looked at.
pub open spec fn tests_in(files: Files, spot: Spot, dir: Seq<Seq<char>>) -> Seq<Seq<char>> {
    if leads_to_dir(files, dir) {
        let at = located(files, files.home + dir)->0;
        let list = entries_in(files, at, shelf(files, at).len() as int);
        tests_among(
            shelf(files, at),
            spot,
            list,
            dir,
            if list.len() > DIR_ENTRY_LIMIT {
                DIR_ENTRY_LIMIT as int
            } else {
                list.len() as int
            },
        )
    } else {
        Seq::empty()
    }
}

/// The tests in the first `d` test directories of the directory `spot`.
pub open spec fn tests_nearby(files: Files, spot: Spot, d: int) -> Seq<Seq<char>>
    decreases d,
{
    if d <= 0 {
        Seq::empty()
    } else {
        tests_nearby(files, spot, d - 1) + tests_in(files, spot, spot.dir.push(test_dirs()[d - 1]))
    }
}

/// The tests in the test directories next to `source`.
pub open spec fn by_proximity(files: Files, source: Seq<char>) -> Seq<Seq<char>> {
    match below(files, source) {
        Some(pieces) => if named_pieces(pieces).len() == 0 {
            Seq::empty()
        } else {
            tests_nearby(files, spot_of(pieces), test_dirs().len() as int)
        },
        None => Seq::empty(),
    }
}

fn list_entries_in(tree: &ProjectTree, at: &Vec<Vec<char>>) -> (list: Vec<usize>)
    ensures
        ({
            let entries = shelf(tree@, rows(at@));
            let all = entries_in(tree@, rows(at@), entries.len() as int);
            &&& list@.len() == all.len()
            &&& forall|k: int|
                0 <= k < list@.len() ==> #[trigger] list@[k] == all[k] && list@[k] < entries.len()
                    && components(entries[list@[k] as int].path@).len() > 0
        }),
{
    let mut list: Vec<usize> = Vec::new();
    let entries = tree.shelf_of(at);
    let dir = tree.place_of(at);
    let mut i: usize = 0;
    while i < entries.len()
        invariant
            0 <= i <= entries@.len(),
            entries@ == shelf(tree@, rows(at@)),
            rows(dir@) == place(tree@, rows(at@)),
            list@.len() == entries_in(tree@, rows(at@), i as int).len(),
            forall|k: int|
                0 <= k < list@.len() ==> #[trigger] list@[k] == entries_in(
                    tree@,
                    rows(at@),
                    i as int,
                )[k] && list@[k] < entries@.len() && components(
                    entries@[list@[k] as int].path@,
                ).len() > 0,
        decreases entries@.len() - i,
    {
        let parts = parts_of(entries[i].path.as_str());
        assert(rows(parts@).len() == parts@.len());
        if parts.len() > 0 && same_parts(&parent_parts(&parts), &dir) {
            list.push(i);
        }
        i += 1;
    }
    list
}

fn push_tests_in(
    tree: &ProjectTree,
    s: &Standing,
    dir: &Vec<Vec<char>>,
    found: &mut Vec<String>,
)
    requires
        s.dir@.len() <= dir@.len(),
    ensures
        final(found).deep_view() == old(found).deep_view() + tests_in(tree@, s.spot(), rows(dir@)),
{
    let ghost before = found.deep_view();
    assert(before + Seq::<Seq<char>>::empty() =~= before);
    let at = match tree.locate(&tree.from_home(dir)) {
        Some(at) => at,
        None => {
            return ;
        },
    };
    if !tree.is_dir_at(&at) {
        return ;
    }
    let list = list_entries_in(tree, &at);
    let entries = tree.shelf_of(&at);
    let ghost spot = s.spot();
    let ghost all = entries_in(tree@, rows(at@), entries@.len() as int);
    let top: usize = if list.len() > DIR_ENTRY_LIMIT {
        DIR_ENTRY_LIMIT
    } else {
        list.len()
    };
    let mut k: usize = 0;
    while k < top
        invariant
            0 <= k <= top <= list@.len(),
            list@.len() == all.len(),
            s.dir@.len() <= dir@.len(),
            spot == s.spot(),
            forall|j: int|
                0 <= j < list@.len() ==> #[trigger] list@[j] == all[j] && list@[j] < entries@.len()
                    && components(entries@[list@[j] as int].path@).len() > 0,
            found.deep_view() == before + tests_among(entries@, spot, all, rows(dir@), k as int),
        decreases top - k,
    {
        let ghost was = found.deep_view();
        let entry = &entries[list[k]];
        let parts = parts_of(entry.path.as_str());
        assert(rows(parts@).len() == parts@.len());
        assert(rows(parts@).last() == parts@[parts@.len() - 1]@);
        let name = &parts[parts.len() - 1];
        if !entry.is_dir && is_test_file(text_of(name).as_str()) {
            let full = with_part(dir, name);
            assert(rows(full@).len() == full@.len());
            let path = spell(s, &full);
            let ghost text = path@;
            found.push(path);
            proof {
                assert(found.deep_view() =~= was.push(text));
                let prev = tests_among(entries@, spot, all, rows(dir@), k as int);
                assert((before + prev).push(text) =~= before + prev.push(text));
            }
        }
        k += 1;
    }
}

/// The tests in the test directories next to `source_file`.
pub fn find_by_directory_proximity(tree: &ProjectTree, source_file: &str) -> (found: Vec<String>)
    ensures
        found.deep_view() == by_proximity(tree@, source_file@),
{
    let mut found: Vec<String> = Vec::new();
    assert(found.deep_view() =~= Seq::<Seq<char>>::empty());
    let s = match standing(tree, source_file) {
        Some(s) => s,
        None => {
            return found;
        },
    };
    assert(rows(s.parts@).len() == s.parts@.len());
    if s.parts.len() == 0 {
        return found;
    }
    let ghost spot = s.spot();
    let dirs = dir_list();
    let mut d: usize = 0;
    while d < dirs.len()
        invariant
            0 <= d <= dirs@.len() == 4,
            dirs.deep_view() == test_dirs(),
            spot == s.spot(),
            found.deep_view() == tests_nearby(tree@, spot, d as int),
        decreases dirs@.len() - d,
    {
        assert(dirs.deep_view()[d as int] == dirs@[d as int]@);
        let dir = with_part(&s.dir, &chars_of(dirs[d]));
        assert(rows(dir@).len() == dir@.len());
        push_tests_in(tree, &s, &dir, &mut found);
        d += 1;
    }
    found
}

// ---------------------------------------------------------------------------------------------
// Observations per changed file
// ---------------------------------------------------------------------------------------------
/// Whether `source` is a Rust file that holds its own tests.
pub open spec fn tests_itself(files: Files, source: Seq<char>) -> bool {
    ends_with(source, ".rs"@) && match text_at(files, whole_path(files, source)) {
        Some(text) => shows_inline_tests(text),
        None => false,
    }
}

/// One observation of each of `files`.
pub open spec fn observations(
    files: Seq<Seq<char>>,
    confidence: u64,
    strategy: Seq<char>,
    source: Seq<char>,
) -> Seq<Finding> {
    Seq::new(files.len(), |k: int| observed(files[k], confidence, strategy, source))
}

/// What the strategies that look at one changed file observe, given whether it tests itself. A
/// changed test file is not looked at.
pub open spec fn file_observations(
    files: Files,
    source: Seq<char>,
    self_test: bool,
) -> Seq<Finding> {
    if is_test(source) {
        Seq::empty()
    } else {
        observations(by_naming(files, source), NAMING_CONFIDENCE, "naming_convention"@, source)
            + observations(
            by_proximity(files, source),
            PROXIMITY_CONFIDENCE,
            "directory_proximity"@,
            source,
        ) + observations(
            if self_test {
                seq![source]
            } else {
                Seq::empty()
            },
            NAMING_CONFIDENCE,
            "rust_inline_tests"@,
            source,
        )
    }
}

/// What these strategies observe for the first `n` changed files.
pub open spec fn all_file_observations(
    files: Files,
    changed: Seq<Seq<char>>,
    n: int,
) -> Seq<Finding>
    decreases n,
{
    if n <= 0 {
        Seq::empty()
    } else {
        all_file_observations(files, changed, n - 1) + file_observations(
            files,
            changed[n - 1],
            tests_itself(files, changed[n - 1]),
        )
    }
}

fn push_observations(
    hits: &mut Vec<AffectedTest>,
    files: &Vec<String>,
    confidence: u64,
    strategy: &str,
    source: &str,
)
    ensures
        final(hits).deep_view() == old(hits).deep_view() + observations(
            files.deep_view(),
            confidence,
            strategy@,
            source@,
        ),
{
    let ghost before = hits.deep_view();
    let ghost all = observations(files.deep_view(), confidence, strategy@, source@);
    let mut k: usize = 0;
    assert(before + all.take(0) =~= before);
    while k < files.len()
        invariant
            0 <= k <= files@.len(),
            all == observations(files.deep_view(), confidence, strategy@, source@),
            hits.deep_view() == before + all.take(k as int),
        decreases files@.len() - k,
    {
        let ghost was = hits.deep_view();
        let t = observation(files[k].as_str(), confidence, strategy, source);
        let ghost view = t.deep_view();
        hits.push(t);
        assert(hits.deep_view() =~= was.push(view));
        assert(was.push(view) =~= before + all.take(k + 1));
        k += 1;
    }
    assert(all.take(k as int) =~= all);
}

/// Whether a changed Rust file holds its own tests.
fn holds_own_tests(tree: &ProjectTree, source: &str) -> (r: bool)
    ensures
        r == tests_itself(tree@, source@),
{
    if !has_suffix(source, ".rs") {
        return false;
    }
    let parts = parts_of(source);
    let whole = if starts_at_root(source) {
        parts
    } else {
        tree.from_home(&parts)
    };
    match tree.text_of(&whole) {
        Some(text) => has_inline_tests(text.as_str()),
        None => false,
    }
}

/// Adds what the naming, proximity and inline-test strategies observe for each changed file.
fn apply_per_file_strategies(
    tree: &ProjectTree,
    changed_files: &Vec<String>,
    hits: &mut Vec<AffectedTest>,
)
    ensures
        final(hits).deep_view() == old(hits).deep_view() + all_file_observations(
            tree@,
            changed_files.deep_view(),
            changed_files@.len() as int,
        ),
{
    let ghost before = hits.deep_view();
    let ghost changed = changed_files.deep_view();
    let mut n: usize = 0;
    assert(before + Seq::<Finding>::empty() =~= before);
    while n < changed_files.len()
        invariant
            0 <= n <= changed_files@.len(),
            changed == changed_files.deep_view(),
            hits.deep_view() == before + all_file_observations(tree@, changed, n as int),
        decreases changed_files@.len() - n,
    {
        let source = changed_files[n].as_str();
        assert(changed[n as int] == source@);
        let ghost was = hits.deep_view();
        let ghost known = all_file_observations(tree@, changed, n as int);
        let ghost own = tests_itself(tree@, source@);
        if !is_test_file(source) {
            let named = find_by_naming_convention(tree, source);
            push_observations(hits, &named, NAMING_CONFIDENCE, "naming_convention", source);
            let near = find_by_directory_proximity(tree, source);
            push_observations(hits, &near, PROXIMITY_CONFIDENCE, "directory_proximity", source);
            let mut inline: Vec<String> = Vec::new();
            if holds_own_tests(tree, source) {
                inline.push(source.to_owned());
            }
            proof {
                if own {
                    assert(inline.deep_view() =~= seq![source@]);
                } else {
                    assert(inline.deep_view() =~= Seq::<Seq<char>>::empty());
                }
            }
            push_observations(hits, &inline, NAMING_CONFIDENCE, "rust_inline_tests", source);
        }
        proof {
            let more = file_observations(tree@, source@, own);
            assert(hits.deep_view() =~= was + more);
            assert((before + known) + more =~= before + (known + more));
        }
        n += 1;
    }
}

// ---------------------------------------------------------------------------------------------
// Heuristics alone
// ---------------------------------------------------------------------------------------------
/// `results` after the observation `t`: of one test file the more confident observation stays.
pub open spec fn merged(results: Seq<Finding>, t: Finding, n: int) -> Seq<Finding>
    decreases n,
{
    if n <= 0 {
        results.push(t)
    } else if results[n - 1].test_file == t.test_file {
        if t.confidence > results[n - 1].confidence {
            results.update(n - 1, t)
        } else {
            results
        }
    } else {
        merged(results, t, n - 1)
    }
}

/// `results` after the first `n` observations of `obs`.
pub open spec fn merged_all(results: Seq<Finding>, obs: Seq<Finding>, n: int) -> Seq<Finding>
    decreases n,
{
    if n <= 0 {
        results
    } else {
        let prev = merged_all(results, obs, n - 1);
        merged(prev, obs[n - 1], prev.len() as int)
    }
}

/// What naming and proximity find for the first `n` changed files, each test file once. No file is
/// looked at once there are `RESULT_CAP` tests.
pub open spec fn heuristic_findings(
    files: Files,
    changed: Seq<Seq<char>>,
    n: int,
) -> Seq<Finding>
    decreases n,
{
    if n <= 0 {
        Seq::empty()
    } else {
        let prev = heuristic_findings(files, changed, n - 1);
        if prev.len() >= RESULT_CAP || is_test(changed[n - 1]) {
            prev
        } else {
            let obs = file_observations(files, changed[n - 1], false);
            merged_all(prev, obs, obs.len() as int)
        }
    }
}

/// `out` holds `list` by confidence, highest first, up to the limit.
pub open spec fn is_top(out: Seq<Finding>, list: Seq<Finding>) -> bool {
    exists|order: Seq<int>| #[trigger]
        is_ranking(finding_keys(list), order) && out == capped(arranged(list, order))
}

fn merge(results: &mut Vec<AffectedTest>, t: AffectedTest)
    ensures
        final(results).deep_view() == merged(
            old(results).deep_view(),
            t.deep_view(),
            old(results)@.len() as int,
        ),
{
    let ghost before = results.deep_view();
    let ghost view = t.deep_view();
    let mut n: usize = results.len();
    while n > 0
        invariant
            0 <= n <= results@.len(),
            before == results.deep_view(),
            before == old(results).deep_view(),
            view == t.deep_view(),
            merged(before, view, results@.len() as int) == merged(before, view, n as int),
        decreases n,
    {
        assert(before[n - 1] == results@[n - 1].deep_view());
        if same(results[n - 1].test_file.as_str(), t.test_file.as_str()) {
            if t.confidence > results[n - 1].confidence {
                results.set(n - 1, t);
                assert(results.deep_view() =~= before.update(n - 1, view));
            }
            return ;
        }
        n -= 1;
    }
    results.push(t);
    assert(results.deep_view() =~= before.push(view));
}

/// The tests of the changed files by naming convention and directory proximity, most confident
/// first.
pub fn find_affected_tests(tree: &ProjectTree, changed_files: &Vec<String>) -> (out: Vec<
    AffectedTest,
>)
    ensures
        is_top(
            out.deep_view(),
            heuristic_findings(tree@, changed_files.deep_view(), changed_files@.len() as int),
        ),
{
    let ghost changed = changed_files.deep_view();
    let mut results: Vec<AffectedTest> = Vec::new();
    let mut n: usize = 0;
    assert(results.deep_view() =~= Seq::<Finding>::empty());
    while n < changed_files.len()
        invariant
            0 <= n <= changed_files@.len(),
            changed == changed_files.deep_view(),
            results.deep_view() == heuristic_findings(tree@, changed, n as int),
        decreases changed_files@.len() - n,
    {
        let source = changed_files[n].as_str();
        assert(changed[n as int] == source@);
        assert(results.deep_view().len() == results@.len());
        if results.len() < RESULT_CAP && !is_test_file(source) {
            let mut obs: Vec<AffectedTest> = Vec::new();
            assert(obs.deep_view() =~= Seq::<Finding>::empty());
            let named = find_by_naming_convention(tree, source);
            push_observations(&mut obs, &named, NAMING_CONFIDENCE, "naming_convention", source);
            let near = find_by_directory_proximity(tree, source);
            push_observations(
                &mut obs,
                &near,
                PROXIMITY_CONFIDENCE,
                "directory_proximity",
                source,
            );
            let ghost all = obs.deep_view();
            assert(all =~= file_observations(tree@, source@, false));
            let ghost prev = results.deep_view();
            let ghost items = obs@;
            let mut queue = reversed(obs);
            assert(items.skip(0) =~= items);
            let ghost mut k: int = 0;
            while queue.len() > 0
                invariant
                    0 <= k,
                    k + queue@.len() == items.len() == all.len(),
                    queue@ == items.skip(k).reverse(),
                    forall|i: int| 0 <= i < all.len() ==> (#[trigger] items[i]).deep_view() == all[i],
                    results.deep_view() == merged_all(prev, all, k),
                decreases queue@.len(),
            {
                assert(queue@.last() == items[k]);
                if let Some(t) = queue.pop() {
                    assert(queue@ =~= items.skip(k + 1).reverse());
                    assert(results.deep_view().len() == results@.len());
                    merge(&mut results, t);
                    proof {
                        k = k + 1;
                    }
                }
            }
        }
        n += 1;
    }
    let ghost list = results.deep_view();
    let mut keys: Vec<u128> = Vec::new();
    let mut k: usize = 0;
    while k < results.len()
        invariant
            0 <= k <= results@.len(),
            list == results.deep_view(),
            keys@ == finding_keys(list).take(k as int),
        decreases results@.len() - k,
    {
        keys.push(results[k].confidence as u128);
        k += 1;
        assert(keys@ =~= finding_keys(list).take(k as int));
    }
    assert(keys@ =~= finding_keys(list));
    let ghost was = results@;
    let mut out = rank_desc(results, keys);
    let ghost order = choose|order: Seq<int>| #[trigger]
        is_ranking(finding_keys(list), order) && out@ == arranged(was, order);
    proof {
        assert(is_ranking(finding_keys(list), order));
        assert(out.deep_view() =~= arranged(list, order));
    }
    let ghost full = out.deep_view();
    if out.len() > RESULT_CAP {
        out.truncate(RESULT_CAP);
        assert(out.deep_view() =~= full.take(RESULT_CAP as int));
    }
    out
}

// ---------------------------------------------------------------------------------------------
// Import graph
// ---------------------------------------------------------------------------------------------
/// `list` holds the test files that import `source` over at most `GRAPH_MAX_DEPTH` imports, each
/// once. A changed test file is not looked at.
pub open spec fn is_importer_list(
    list: Seq<Seq<char>>,
    edges: Set<Edge>,
    source: Seq<char>,
) -> bool {
    if is_test(source) {
        list.len() == 0
    } else {
        list.no_duplicates() && forall|f: Seq<char>| #[trigger]
            listed(list, f) <==> (is_test(f) && f != canonical(source) && depends(
                edges,
                f,
                canonical(source),
                GRAPH_MAX_DEPTH as nat,
            ))
    }
}

/// The observations of the tests `lists[k]` for each of the first `n` changed files.
pub open spec fn graph_observations(
    lists: Seq<Seq<Seq<char>>>,
    changed: Seq<Seq<char>>,
    n: int,
) -> Seq<Finding>
    decreases n,
{
    if n <= 0 {
        Seq::empty()
    } else {
        graph_observations(lists, changed, n - 1) + observations(
            lists[n - 1],
            GRAPH_CONFIDENCE,
            "import_graph"@,
            changed[n - 1],
        )
    }
}

/// `part` is what the import graph observes for the first `n` changed files.
pub open spec fn is_graph_part(
    part: Seq<Finding>,
    edges: Set<Edge>,
    changed: Seq<Seq<char>>,
    n: int,
) -> bool {
    exists|lists: Seq<Seq<Seq<char>>>|
        lists.len() == n && (forall|k: int|
            0 <= k < n ==> is_importer_list(#[trigger] lists[k], edges, changed[k])) && part
            == #[trigger] graph_observations(lists, changed, n)
}

proof fn graph_observations_of_prefix(
    a: Seq<Seq<Seq<char>>>,
    b: Seq<Seq<Seq<char>>>,
    changed: Seq<Seq<char>>,
    n: int,
)
    requires
        n <= a.len(),
        n <= b.len(),
        forall|k: int| 0 <= k < n ==> a[k] == b[k],
    ensures
        graph_observations(a, changed, n) == graph_observations(b, changed, n),
    decreases n,
{
    if n > 0 {
        graph_observations_of_prefix(a, b, changed, n - 1);
    }
}

proof fn no_sources_no_graph_part(edges: Set<Edge>, changed: Seq<Seq<char>>, n: int)
    requires
        0 <= n <= changed.len(),
        !any_source(changed, n),
    ensures
        is_graph_part(Seq::empty(), edges, changed, n),
{
    let lists = Seq::new(n as nat, |k: int| Seq::<Seq<char>>::empty());
    assert forall|k: int| 0 <= k < n implies is_importer_list(
        #[trigger] lists[k],
        edges,
        changed[k],
    ) by {
        assert(is_test(changed[k]));
    }
    empty_lists_observe_nothing(lists, changed, n);
}

proof fn empty_lists_observe_nothing(
    lists: Seq<Seq<Seq<char>>>,
    changed: Seq<Seq<char>>,
    n: int,
)
    requires
        n <= lists.len(),
        forall|k: int| 0 <= k < lists.len() ==> (#[trigger] lists[k]).len() == 0,
    ensures
        graph_observations(lists, changed, n) == Seq::<Finding>::empty(),
    decreases n,
{
    if n > 0 {
        empty_lists_observe_nothing(lists, changed, n - 1);
        assert(lists[n - 1].len() == 0);
        assert(graph_observations(lists, changed, n) =~= Seq::<Finding>::empty());
    }
}

/// Keeps the test files of `files`.
fn only_tests(files: Vec<String>) -> (r: Vec<String>)
    requires
        files.deep_view().no_duplicates(),
    ensures
        r.deep_view().no_duplicates(),
        forall|f: Seq<char>| #[trigger]
            listed(r.deep_view(), f) <==> (is_test(f) && listed(files.deep_view(), f)),
{
    let ghost all = files.deep_view();
    let mut r: Vec<String> = Vec::new();
    let mut k: usize = 0;
    while k < files.len()
        invariant
            0 <= k <= files@.len(),
            all == files.deep_view(),
            all.no_duplicates(),
            r.deep_view().no_duplicates(),
            forall|f: Seq<char>| #[trigger]
                listed(r.deep_view(), f) <==> (is_test(f) && listed(all.take(k as int), f)),
        decreases files@.len() - k,
    {
        let ghost before = r.deep_view();
        let ghost x = files@[k as int]@;
        assert(all[k as int] == x);
        let keep = is_test_file(files[k].as_str());
        if keep {
            r.push(files[k].clone());
        }
        proof {
            let now = r.deep_view();
            if keep {
                assert(now =~= before.push(x));
            } else {
                assert(now =~= before);
            }
            assert forall|f: Seq<char>| #[trigger] listed(now, f) <==> (is_test(f) && listed(
                all.take(k + 1),
                f,
            )) by {
                if listed(now, f) {
                    let j = choose|j: int| 0 <= j < now.len() && #[trigger] now[j] == f;
                    if j < before.len() {
                        assert(before[j] == f);
                        assert(listed(before, f));
                        let i = choose|i: int| 0 <= i < k && #[trigger] all.take(k as int)[i] == f;
                        assert(all.take(k + 1)[i] == f);
                    } else {
                        assert(all.take(k + 1)[k as int] == f);
                    }
                }
                if is_test(f) && listed(all.take(k + 1), f) {
                    let i = choose|i: int| 0 <= i < k + 1 && #[trigger] all.take(k + 1)[i] == f;
                    if i < k {
                        assert(all.take(k as int)[i] == f);
                        assert(listed(before, f));
                        let j = choose|j: int| 0 <= j < before.len() && #[trigger] before[j] == f;
                        assert(now[j] == f);
                    } else {
                        assert(now[before.len() as int] == f);
                    }
                }
            }
            if keep {
                assert(!listed(before, x)) by {
                    if listed(before, x) {
                        let i = choose|i: int| 0 <= i < k && #[trigger] all.take(k as int)[i] == x;
                        assert(all[i] == x && i != k);
                    }
                }
                assert forall|a: int, b: int|
                    0 <= a < now.len() && 0 <= b < now.len() && a != b implies now[a] != now[b] by {
                    if a < before.len() && b < before.len() {
                        assert(before[a] != before[b]);
                    } else if a < before.len() {
                        assert(before[a] == now[a]);
                    } else {
                        assert(before[b] == now[b]);
                    }
                }
            }
        }
        k += 1;
    }
    assert(all.take(k as int) =~= all);
    r
}

/// Adds what the import graph observes for each changed file.
fn apply_graph_strategy(
    graph: &ImportGraph,
    changed_files: &Vec<String>,
    hits: &mut Vec<AffectedTest>,
)
    requires
        graph.wf(),
    ensures
        exists|part: Seq<Finding>|
            is_graph_part(
                part,
                graph@,
                changed_files.deep_view(),
                changed_files@.len() as int,
            ) && final(hits).deep_view() == #[trigger] (old(hits).deep_view() + part),
{
    let ghost before = hits.deep_view();
    let ghost changed = changed_files.deep_view();
    let ghost mut lists: Seq<Seq<Seq<char>>> = Seq::empty();
    let mut n: usize = 0;
    assert(before + graph_observations(lists, changed, 0) =~= before);
    while n < changed_files.len()
        invariant
            0 <= n <= changed_files@.len(),
            graph.wf(),
            changed == changed_files.deep_view(),
            lists.len() == n,
            forall|k: int|
                0 <= k < n ==> is_importer_list(#[trigger] lists[k], graph@, changed[k]),
            hits.deep_view() == before + graph_observations(lists, changed, n as int),
        decreases changed_files@.len() - n,
    {
        let source = changed_files[n].as_str();
        assert(changed[n as int] == source@);
        let mut tests: Vec<String> = Vec::new();
        if !is_test_file(source) {
            tests = only_tests(graph.reverse_reachable(source, GRAPH_MAX_DEPTH));
        }
        let ghost list = tests.deep_view();
        assert(is_importer_list(list, graph@, source@));
        push_observations(hits, &tests, GRAPH_CONFIDENCE, "import_graph", source);
        proof {
            let next = lists.push(list);
            graph_observations_of_prefix(lists, next, changed, n as int);
            let known = graph_observations(lists, changed, n as int);
            let more = observations(list, GRAPH_CONFIDENCE, "import_graph"@, source@);
            assert(next[n as int] == list);
            assert((before + known) + more =~= before + (known + more));
            lists = next;
        }
        n += 1;
    }
    proof {
        let part = graph_observations(lists, changed, n as int);
        assert(is_graph_part(part, graph@, changed, n as int));
        assert(hits.deep_view() == before + part);
    }
}

/// `out` is the outcome of the strategies that look at one file and of the import graph with the
/// given edges.
pub open spec fn is_graph_outcome(
    out: Seq<Finding>,
    files: Files,
    edges: Set<Edge>,
    changed: Seq<Seq<char>>,
) -> bool {
    let n = changed.len() as int;
    exists|part: Seq<Finding>|
        is_graph_part(part, edges, changed, n) && is_outcome(
            out,
            #[trigger] (all_file_observations(files, changed, n) + part),
        )
}

/// The tests of the changed files by naming, proximity, inline tests and imports, most confident
/// first.
pub fn find_affected_tests_with_graph(tree: &ProjectTree, changed_files: &Vec<String>) -> (out: Vec<
    AffectedTest,
>)
    ensures
        is_graph_outcome(
            out.deep_view(),
            tree@,
            graph_edges(tree),
            changed_files.deep_view(),
        ),
{
    let mut hits: Vec<AffectedTest> = Vec::new();
    assert(hits.deep_view() =~= Seq::<Finding>::empty());
    apply_per_file_strategies(tree, changed_files, &mut hits);
    let ghost changed = changed_files.deep_view();
    let ghost n = changed.len() as int;
    let ghost files = all_file_observations(tree@, changed, n);
    assert(hits.deep_view() =~= files);
    if has_any_non_test_input(changed_files) {
        let (graph, scanned) = build_graph(tree);
        apply_graph_strategy(&graph, changed_files, &mut hits);
    } else {
        proof {
            no_sources_no_graph_part(graph_edges(tree), changed, n);
            assert(files + Seq::<Finding>::empty() =~= files);
        }
    }
    let ghost all = hits.deep_view();
    let ghost part = choose|part: Seq<Finding>|
        is_graph_part(part, graph_edges(tree), changed, n) && all == #[trigger] (files + part);
    compose_results(hits)
}

/// Affected tests, with what the cache has to change where it was used.
pub struct CachedAffected {
    pub affected: Vec<AffectedTest>,
    /// Missing where no graph was needed.
    pub build: Option<CachedBuild>,
}

/// `r` is the outcome with the cache `files`. A graph is built where a changed file is no test file.
pub open spec fn is_cached_outcome(
    r: CachedAffected,
    tree: &ProjectTree,
    changed: Seq<Seq<char>>,
    files: Seq<CachedFile>,
) -> bool {
    &&& r.build is Some <==> any_source(changed, changed.len() as int)
    &&& match r.build {
        Some(build) => is_cached_build(build, tree, files) && is_graph_outcome(
            r.affected.deep_view(),
            tree@,
            build.graph@,
            changed,
        ),
        None => is_graph_outcome(r.affected.deep_view(), tree@, Set::empty(), changed),
    }
}

/// Like `find_affected_tests_with_graph`, with the imports of unchanged files from the cache.
pub fn find_affected_tests_with_graph_cached(
    tree: &ProjectTree,
    changed_files: &Vec<String>,
    files: &Vec<CachedFile>,
) -> (r: CachedAffected)
    ensures
        is_cached_outcome(r, tree, changed_files.deep_view(), files@),
{
    let mut hits: Vec<AffectedTest> = Vec::new();
    assert(hits.deep_view() =~= Seq::<Finding>::empty());
    apply_per_file_strategies(tree, changed_files, &mut hits);
    let ghost changed = changed_files.deep_view();
    let ghost n = changed.len() as int;
    let ghost obs = all_file_observations(tree@, changed, n);
    assert(hits.deep_view() =~= obs);
    if !has_any_non_test_input(changed_files) {
        proof {
            no_sources_no_graph_part(Set::empty(), changed, n);
            assert(obs + Seq::<Finding>::empty() =~= obs);
        }
        return CachedAffected { affected: compose_results(hits), build: None };
    }
    let build = build_graph_cached(tree, files);
    apply_graph_strategy(&build.graph, changed_files, &mut hits);
    let ghost all = hits.deep_view();
    let ghost part = choose|part: Seq<Finding>|
        is_graph_part(part, build.graph@, changed, n) && all == #[trigger] (obs + part);
    CachedAffected { affected: compose_results(hits), build: Some(build) }
}

// ---------------------------------------------------------------------------------------------
// History
// ---------------------------------------------------------------------------------------------
/// A test file that history connects with a changed file.
pub struct HistoryCandidate {
    /// Relative to the project root.
    pub test_file: String,
}

/// A source of history. `None` says that there is no history to look at; an empty list says that
/// there is, and that it names no test.
pub trait HistorySignalProvider {
    /// The test files whose runs covered `source_file`.
    fn coverage_history_candidates(&self, source_file: &str) -> Option<Vec<HistoryCandidate>>;

    /// The test files that failed in commits that touched `source_file`.
    fn failure_history_candidates(&self, source_file: &str) -> Option<Vec<HistoryCandidate>>;
}

/// A provider without any history.
#[derive(Debug)]
pub struct NoHistoryProvider;

impl HistorySignalProvider for NoHistoryProvider {
    fn coverage_history_candidates(&self, source_file: &str) -> (r: Option<Vec<HistoryCandidate>>)
        ensures
            r is None,
    {
        None
    }

    fn failure_history_candidates(&self, source_file: &str) -> (r: Option<Vec<HistoryCandidate>>)
        ensures
            r is None,
    {
        None
    }
}

/// What history said about one changed file.
pub struct HistoryAnswer {
    pub coverage: Option<Vec<HistoryCandidate>>,
    pub failure: Option<Vec<HistoryCandidate>>,
}

/// Which strategies ran and which had nothing to look at.
pub struct AffectedTestsSignalCoverage {
    pub attempted: Vec<String>,
    pub unavailable: Vec<String>,
}

/// Affected tests, with the strategies behind them.
pub struct AffectedTestsRun {
    pub affected: Vec<AffectedTest>,
    pub signals: AffectedTestsSignalCoverage,
}

/// The test files of candidates.
pub open spec fn candidate_files(list: Seq<HistoryCandidate>) -> Seq<Seq<char>> {
    Seq::new(list.len(), |k: int| list[k].test_file@)
}

/// What an answer observes; nothing where there was no history.
pub open spec fn answered(
    answer: Option<Vec<HistoryCandidate>>,
    confidence: u64,
    strategy: Seq<char>,
    source: Seq<char>,
) -> Seq<Finding> {
    match answer {
        Some(list) => observations(candidate_files(list@), confidence, strategy, source),
        None => Seq::empty(),
    }
}

/// What history observes for the first `n` changed files. A changed test file is not looked at.
pub open spec fn history_observations(
    changed: Seq<Seq<char>>,
    answers: Seq<HistoryAnswer>,
    n: int,
) -> Seq<Finding>
    decreases n,
{
    if n <= 0 {
        Seq::empty()
    } else if is_test(changed[n - 1]) {
        history_observations(changed, answers, n - 1)
    } else {
        history_observations(changed, answers, n - 1) + answered(
            answers[n - 1].coverage,
            COVERAGE_HISTORY_CONFIDENCE,
            "coverage_history"@,
            changed[n - 1],
        ) + answered(
            answers[n - 1].failure,
            FAILURE_HISTORY_CONFIDENCE,
            "failure_history"@,
            changed[n - 1],
        )
    }
}

/// Some changed source file among the first `n` had coverage history to look at, or had none, as
/// `seen` says.
pub open spec fn coverage_answer(
    changed: Seq<Seq<char>>,
    answers: Seq<HistoryAnswer>,
    n: int,
    seen: bool,
) -> bool {
    exists|k: int|
        0 <= k < n && !is_test(#[trigger] changed[k]) && answers[k].coverage is Some == seen
}

/// Some changed source file among the first `n` had failure history to look at, or had none, as
/// `seen` says.
pub open spec fn failure_answer(
    changed: Seq<Seq<char>>,
    answers: Seq<HistoryAnswer>,
    n: int,
    seen: bool,
) -> bool {
    exists|k: int|
        0 <= k < n && !is_test(#[trigger] changed[k]) && answers[k].failure is Some == seen
}

/// `list`, with `name` at its end where `cond` holds.
pub open spec fn push_if(list: Seq<Seq<char>>, cond: bool, name: Seq<char>) -> Seq<Seq<char>> {
    if cond {
        list.push(name)
    } else {
        list
    }
}

/// The strategies that ran.
pub open spec fn attempted_signals(
    changed: Seq<Seq<char>>,
    answers: Seq<HistoryAnswer>,
    use_graph: bool,
) -> Seq<Seq<char>> {
    let n = changed.len() as int;
    let base = seq!["naming_convention"@, "directory_proximity"@];
    let graph = push_if(base, use_graph && any_source(changed, n), "import_graph"@);
    let coverage = push_if(graph, coverage_answer(changed, answers, n, true), "coverage_history"@);
    push_if(coverage, failure_answer(changed, answers, n, true), "failure_history"@)
}

/// The strategies that had nothing to look at.
pub open spec fn unavailable_signals(
    changed: Seq<Seq<char>>,
    answers: Seq<HistoryAnswer>,
) -> Seq<Seq<char>> {
    let n = changed.len() as int;
    let coverage = push_if(
        Seq::empty(),
        !coverage_answer(changed, answers, n, true) && coverage_answer(changed, answers, n, false),
        "coverage_history"@,
    );
    push_if(
        coverage,
        !failure_answer(changed, answers, n, true) && failure_answer(changed, answers, n, false),
        "failure_history"@,
    )
}

/// `r` is what all strategies come to, given what history answered.
pub open spec fn is_history_run(
    r: AffectedTestsRun,
    tree: &ProjectTree,
    changed: Seq<Seq<char>>,
    answers: Seq<HistoryAnswer>,
    use_graph: bool,
) -> bool {
    let n = changed.len() as int;
    &&& r.signals.attempted.deep_view() == attempted_signals(changed, answers, use_graph)
    &&& r.signals.unavailable.deep_view() == unavailable_signals(changed, answers)
    &&& exists|part: Seq<Finding>|
        (if use_graph {
            is_graph_part(part, graph_edges(tree), changed, n)
        } else {
            part == Seq::<Finding>::empty()
        }) && is_outcome(
            r.affected.deep_view(),
            #[trigger] (all_file_observations(tree@, changed, n) + part) + history_observations(
                changed,
                answers,
                n,
            ),
        )
}

/// Without history, and with a source file among the changes, both history strategies are
/// unavailable: an empty result then does not say that nothing is affected.
pub proof fn no_history_is_degraded(changed: Seq<Seq<char>>, answers: Seq<HistoryAnswer>)
    requires
        answers.len() == changed.len(),
        any_source(changed, changed.len() as int),
        forall|k: int|
            0 <= k < answers.len() ==> (#[trigger] answers[k]).coverage is None
                && answers[k].failure is None,
    ensures
        unavailable_signals(changed, answers) == seq!["coverage_history"@, "failure_history"@],
{
    let n = changed.len() as int;
    let k = choose|k: int| 0 <= k < n && !is_test(#[trigger] changed[k]);
    assert(answers[k].coverage is None && answers[k].failure is None);
    assert(coverage_answer(changed, answers, n, false));
    assert(failure_answer(changed, answers, n, false));
    assert forall|j: int| 0 <= j < n implies answers[j].coverage is None
        && answers[j].failure is None by {
        assert(answers[j].coverage is None);
    }
    assert(!coverage_answer(changed, answers, n, true));
    assert(!failure_answer(changed, answers, n, true));
    assert(unavailable_signals(changed, answers) =~= seq![
        "coverage_history"@,
        "failure_history"@,
    ]);
}

fn push_candidates(
    hits: &mut Vec<AffectedTest>,
    answer: &Option<Vec<HistoryCandidate>>,
    confidence: u64,
    strategy: &str,
    source: &str,
)
    ensures
        final(hits).deep_view() == old(hits).deep_view() + answered(
            *answer,
            confidence,
            strategy@,
            source@,
        ),
{
    let ghost before = hits.deep_view();
    match answer {
        Some(list) => {
            let mut files: Vec<String> = Vec::new();
            let mut k: usize = 0;
            while k < list.len()
                invariant
                    0 <= k <= list@.len(),
                    files@.len() == k,
                    forall|j: int| 0 <= j < k ==> (#[trigger] files@[j])@ == list@[j].test_file@,
                decreases list@.len() - k,
            {
                files.push(list[k].test_file.clone());
                k += 1;
            }
            assert(files.deep_view() =~= candidate_files(list@));
            push_observations(hits, &files, confidence, strategy, source);
        },
        None => {
            assert(before + Seq::<Finding>::empty() =~= before);
        },
    }
}

/// The tests of the changed files by all strategies, given what history answered for each file.
pub fn find_affected_tests_with_answers(
    tree: &ProjectTree,
    changed_files: &Vec<String>,
    answers: &Vec<HistoryAnswer>,
    use_graph: bool,
) -> (r: AffectedTestsRun)
    requires
        answers@.len() == changed_files@.len(),
    ensures
        is_history_run(r, tree, changed_files.deep_view(), answers@, use_graph),
{
    let mut hits: Vec<AffectedTest> = Vec::new();
    assert(hits.deep_view() =~= Seq::<Finding>::empty());
    apply_per_file_strategies(tree, changed_files, &mut hits);
    let ghost changed = changed_files.deep_view();
    let ghost n = changed.len() as int;
    let ghost files = all_file_observations(tree@, changed, n);
    assert(hits.deep_view() =~= files);
    let mut attempted: Vec<String> = Vec::new();
    attempted.push("naming_convention".to_owned());
    attempted.push("directory_proximity".to_owned());
    assert(attempted.deep_view() =~= seq!["naming_convention"@, "directory_proximity"@]);
    let ghost mut part: Seq<Finding> = Seq::empty();
    let any = has_any_non_test_input(changed_files);
    if use_graph && any {
        let (graph, scanned) = build_graph(tree);
        let ghost was = hits.deep_view();
        apply_graph_strategy(&graph, changed_files, &mut hits);
        let ghost base = attempted.deep_view();
        attempted.push("import_graph".to_owned());
        proof {
            let now = hits.deep_view();
            part = choose|part: Seq<Finding>|
                is_graph_part(part, graph_edges(tree), changed, n) && now == #[trigger] (files + part);
            assert(attempted.deep_view() =~= base.push("import_graph"@));
        }
    } else {
        proof {
            if use_graph {
                no_sources_no_graph_part(graph_edges(tree), changed, n);
            }
            assert(files + Seq::<Finding>::empty() =~= files);
        }
    }
    let ghost so_far = files + part;
    let mut coverage_seen = false;
    let mut coverage_unavailable = false;
    let mut failure_seen = false;
    let mut failure_unavailable = false;
    let mut k: usize = 0;
    assert(so_far + Seq::<Finding>::empty() =~= so_far);
    while k < changed_files.len()
        invariant
            0 <= k <= changed_files@.len(),
            changed == changed_files.deep_view(),
            answers@.len() == changed_files@.len(),
            hits.deep_view() == so_far + history_observations(changed, answers@, k as int),
            coverage_seen == coverage_answer(changed, answers@, k as int, true),
            coverage_unavailable == coverage_answer(changed, answers@, k as int, false),
            failure_seen == failure_answer(changed, answers@, k as int, true),
            failure_unavailable == failure_answer(changed, answers@, k as int, false),
        decreases changed_files@.len() - k,
    {
        let source = changed_files[k].as_str();
        assert(changed[k as int] == source@);
        let ghost was = hits.deep_view();
        let ghost known = history_observations(changed, answers@, k as int);
        if !is_test_file(source) {
            push_candidates(
                &mut hits,
                &answers[k].coverage,
                COVERAGE_HISTORY_CONFIDENCE,
                "coverage_history",
                source,
            );
            push_candidates(
                &mut hits,
                &answers[k].failure,
                FAILURE_HISTORY_CONFIDENCE,
                "failure_history",
                source,
            );
            proof {
                let a = answered(
                    answers@[k as int].coverage,
                    COVERAGE_HISTORY_CONFIDENCE,
                    "coverage_history"@,
                    source@,
                );
                let b = answered(
                    answers@[k as int].failure,
                    FAILURE_HISTORY_CONFIDENCE,
                    "failure_history"@,
                    source@,
                );
                assert(((so_far + known) + a) + b =~= so_far + (known + a + b));
            }
            if answers[k].coverage.is_some() {
                coverage_seen = true;
            } else {
                coverage_unavailable = true;
            }
            if answers[k].failure.is_some() {
                failure_seen = true;
            } else {
                failure_unavailable = true;
            }
        }
        proof {
            answers_grow(changed, answers@, k as int);
        }
        k += 1;
    }
    let mut unavailable: Vec<String> = Vec::new();
    assert(unavailable.deep_view() =~= Seq::<Seq<char>>::empty());
    let ghost a0 = attempted.deep_view();
    let ghost u0 = unavailable.deep_view();
    if coverage_seen {
        attempted.push("coverage_history".to_owned());
    } else if coverage_unavailable {
        unavailable.push("coverage_history".to_owned());
    }
    let ghost a1 = attempted.deep_view();
    let ghost u1 = unavailable.deep_view();
    assert(a1 =~= push_if(a0, coverage_seen, "coverage_history"@));
    assert(u1 =~= push_if(u0, !coverage_seen && coverage_unavailable, "coverage_history"@));
    if failure_seen {
        attempted.push("failure_history".to_owned());
    } else if failure_unavailable {
        unavailable.push("failure_history".to_owned());
    }
    assert(attempted.deep_view() =~= push_if(a1, failure_seen, "failure_history"@));
    assert(unavailable.deep_view() =~= push_if(
        u1,
        !failure_seen && failure_unavailable,
        "failure_history"@,
    ));
    let affected = compose_results(hits);
    assert(is_outcome(
        affected.deep_view(),
        (files + part) + history_observations(changed, answers@, n),
    ));
    AffectedTestsRun { affected, signals: AffectedTestsSignalCoverage { attempted, unavailable } }
}

proof fn answers_grow(changed: Seq<Seq<char>>, answers: Seq<HistoryAnswer>, k: int)
    requires
        0 <= k < changed.len(),
        k < answers.len(),
    ensures
        forall|seen: bool| #[trigger]
            coverage_answer(changed, answers, k + 1, seen) <==> (coverage_answer(
                changed,
                answers,
                k,
                seen,
            ) || (!is_test(changed[k]) && answers[k].coverage is Some == seen)),
        forall|seen: bool| #[trigger]
            failure_answer(changed, answers, k + 1, seen) <==> (failure_answer(
                changed,
                answers,
                k,
                seen,
            ) || (!is_test(changed[k]) && answers[k].failure is Some == seen)),
{
}

/// `answer` is what `history` says about the changed file `file`. It is not asked about a test
/// file.
pub open spec fn is_answer<H: HistorySignalProvider>(
    history: &H,
    file: Seq<char>,
    answer: HistoryAnswer,
) -> bool {
    if is_test(file) {
        answer.coverage is None && answer.failure is None
    } else {
        exists|s: &str|
            #![trigger call_ensures(H::coverage_history_candidates, (history, s), answer.coverage)]
            s@ == file && call_ensures(
                H::coverage_history_candidates,
                (history, s),
                answer.coverage,
            ) && call_ensures(H::failure_history_candidates, (history, s), answer.failure)
    }
}

/// The provider without history has no answer about any file.
pub proof fn no_provider_has_no_answer(
    history: &NoHistoryProvider,
    file: Seq<char>,
    answer: HistoryAnswer,
)
    requires
        is_answer(history, file, answer),
    ensures
        answer.coverage is None,
        answer.failure is None,
{
}

/// The tests of the changed files by all strategies. History is asked about each changed file that
/// is no test file itself.
pub fn find_affected_tests_with_history<H: HistorySignalProvider>(
    tree: &ProjectTree,
    changed_files: &Vec<String>,
    history: &H,
    use_graph: bool,
) -> (r: AffectedTestsRun)
    ensures
        exists|answers: Seq<HistoryAnswer>|
            answers.len() == changed_files@.len() && #[trigger] is_history_run(
                r,
                tree,
                changed_files.deep_view(),
                answers,
                use_graph,
            ) && forall|k: int|
                0 <= k < answers.len() ==> is_answer(
                    history,
                    changed_files.deep_view()[k],
                    #[trigger] answers[k],
                ),
{
    let mut answers: Vec<HistoryAnswer> = Vec::new();
    let mut k: usize = 0;
    while k < changed_files.len()
        invariant
            0 <= k <= changed_files@.len(),
            answers@.len() == k,
            forall|j: int|
                0 <= j < k ==> is_answer(
                    history,
                    changed_files.deep_view()[j],
                    #[trigger] answers@[j],
                ),
        decreases changed_files@.len() - k,
    {
        let source = changed_files[k].as_str();
        assert(changed_files.deep_view()[k as int] == source@);
        if is_test_file(source) {
            answers.push(HistoryAnswer { coverage: None, failure: None });
        } else {
            answers.push(
                HistoryAnswer {
                    coverage: history.coverage_history_candidates(source),
                    failure: history.failure_history_candidates(source),
                },
            );
        }
        k += 1;
    }
    find_affected_tests_with_answers(tree, changed_files, &answers, use_graph)
}

// ---------------------------------------------------------------------------------------------
// Package manager
// ---------------------------------------------------------------------------------------------
/// The package manager whose lock file the project root holds.
pub open spec fn package_manager(files: Files) -> Seq<char> {
    if root_has(files, "pnpm-lock.yaml"@) {
        "pnpm"@
    } else if root_has(files, "yarn.lock"@) {
        "yarn"@
    } else if root_has(files, "bun.lockb"@) || root_has(files, "bun.lock"@) {
        "bun"@
    } else {
        "npx"@
    }
}

/// The package manager whose lock file the project root holds; `npx` where there is none.
pub fn detect_package_manager(tree: &ProjectTree) -> (r: &'static str)
    ensures
        r@ == package_manager(tree@),
{
    if has_in_root(tree, "pnpm-lock.yaml") {
        "pnpm"
    } else if has_in_root(tree, "yarn.lock") {
        "yarn"
    } else if has_in_root(tree, "bun.lockb") || has_in_root(tree, "bun.lock") {
        "bun"
    } else {
        "npx"
    }
}

} // verus!
