//! What the cache of imports keeps from one build to the next.
use vstd::prelude::*;

use crate::imports::go::{best_module, modules, package_files};
use crate::imports::python::{
    absolute_target, importable, packages, with_modules, with_root_modules,
};
use crate::imports::typescript::{
    some_index_file, typescript_extensions, typescript_file, with_extension, with_some_extension,
};
use crate::paths::{canonical, components, is_absolute, parent, path_of};
use crate::text::{join, replace_char, starts_with, trim_start_by};
use crate::tree::{
    entry_at, entry_is_there, file_of, is_within, located, name_of, shelf, Files, ProjectTree,
};
use crate::walker::{
    cache_key, cacheable, cached_at, empty_cache_extracts_everything, graph_edges, imported_by,
    imports_of, is_cacheable, is_cached_build, is_write, keys_of, known_targets, missing, modified,
    names_file, same_targets, scan, scanned_files, scanned_keys, source_language, targets_of,
    targets_upto, true_cache_gives_fresh_graph, unchanged, CachedBuild, CachedFile, Language,
};

verus! {

/// The entries of a project are spelled plainly: with single slashes, and such that no key begins
/// with `./` and no two entries share one.
pub open spec fn is_plain(files: Files) -> bool {
    &&& forall|i: int|
        0 <= i < files.entries.len() ==> path_of(components((#[trigger] files.entries[i]).path@))
            == files.entries[i].path@
    &&& forall|i: int|
        0 <= i < files.entries.len() ==> !starts_with(
            cache_key((#[trigger] files.entries[i]).path@),
            seq!['.', '/'],
        )
    &&& forall|i: int, j: int|
        0 <= i < j < files.entries.len() ==> cache_key((#[trigger] files.entries[i]).path@) != cache_key(
            (#[trigger] files.entries[j]).path@,
        )
}

/// An entry of the project stands at `path`.
pub open spec fn is_entry(files: Files, path: Seq<char>) -> bool {
    exists|i: int| 0 <= i < files.entries.len() && #[trigger] files.entries[i].path@ == path
}

/// An entry of the project stands at `path`, or it starts at the root of the file system.
pub open spec fn is_target(files: Files, path: Seq<char>) -> bool {
    is_entry(files, path) || is_absolute(path)
}

/// The cache tells the truth about the files that it still describes.
pub open spec fn is_truthful(tree: &ProjectTree, files: Seq<CachedFile>) -> bool {
    forall|a: int|
        0 <= a < scan(tree).len() ==> same_targets(
            known_targets(tree, files, #[trigger] scan(tree)[a]),
            imported_by(tree, scan(tree)[a]),
        )
}

// ---------------------------------------------------------------------------------------------
// Imports lead to entries
// ---------------------------------------------------------------------------------------------
proof fn file_is_entry(files: Files, parts: Seq<Seq<char>>)
    ensures
        file_of(files, parts) is Some ==> is_target(files, file_of(files, parts)->0),
{
    if file_of(files, parts) is Some {
        let at = located(files, parts)->0;
        let path = name_of(files, at);
        if is_within(files, at) {
            entry_is_there(files.entries, path, files.entries.len() as int);
            let i = entry_at(files.entries, path, files.entries.len() as int)->0;
            assert(files.entries[i].path@ == path);
        } else {
            reveal_strlit("/");
            assert(path[0] == '/');
        }
    }
}

proof fn extended_file_is_entry(files: Files, raw: Seq<Seq<char>>, k: int)
    ensures
        with_some_extension(files, raw, k) is Some ==> is_target(
            files,
            with_some_extension(files, raw, k)->0,
        ),
    decreases typescript_extensions().len() - k,
{
    let all = typescript_extensions();
    if 0 <= k < all.len() {
        file_is_entry(files, with_extension(raw, all[k]));
        extended_file_is_entry(files, raw, k + 1);
    }
}

proof fn index_file_is_entry(files: Files, raw: Seq<Seq<char>>, k: int)
    ensures
        some_index_file(files, raw, k) is Some ==> is_target(
            files,
            some_index_file(files, raw, k)->0,
        ),
    decreases typescript_extensions().len() - k,
{
    let all = typescript_extensions();
    if 0 <= k < all.len() {
        file_is_entry(files, raw.push("index."@ + all[k]));
        index_file_is_entry(files, raw, k + 1);
    }
}

proof fn typescript_file_is_entry(files: Files, raw: Seq<Seq<char>>)
    ensures
        typescript_file(files, raw) is Some ==> is_target(
            files,
            typescript_file(files, raw)->0,
        ),
{
    file_is_entry(files, raw);
    extended_file_is_entry(files, raw, 0);
    index_file_is_entry(files, raw, 0);
}

spec fn points_into(index: Map<Seq<char>, int>, n: int) -> bool {
    forall|name: Seq<char>| #[trigger] index.contains_key(name) ==> 0 <= index[name] < n
}

proof fn packages_point_into(files: Files, root: Seq<char>, n: int)
    requires
        0 <= n,
    ensures
        points_into(packages(files, root, n), n),
    decreases n,
{
    if n > 0 {
        packages_point_into(files, root, n - 1);
    }
}

proof fn modules_point_into(files: Files, pk: Map<Seq<char>, int>, n: int, size: int)
    requires
        0 <= n <= size,
        points_into(pk, size),
    ensures
        points_into(with_modules(files, pk, n), size),
    decreases n,
{
    if n > 0 {
        modules_point_into(files, pk, n - 1, size);
    }
}

proof fn root_modules_point_into(
    files: Files,
    root: Seq<char>,
    base: Map<Seq<char>, int>,
    n: int,
    size: int,
)
    requires
        0 <= n <= size,
        points_into(base, size),
    ensures
        points_into(with_root_modules(files, root, base, n), size),
    decreases n,
{
    if n > 0 {
        root_modules_point_into(files, root, base, n - 1, size);
    }
}

proof fn absolute_target_is_entry(
    files: Files,
    index: Map<Seq<char>, int>,
    parts: Seq<Seq<char>>,
    end: int,
)
    requires
        points_into(index, files.entries.len() as int),
    ensures
        absolute_target(files, index, parts, end) is Some ==> is_target(
            files,
            absolute_target(files, index, parts, end)->0,
        ),
    decreases end,
{
    if end > 0 {
        let key = join(parts.take(end), seq!['.']);
        if index.contains_key(key) {
            assert(is_target(files, files.entries[index[key]].path@));
        } else {
            absolute_target_is_entry(files, index, parts, end - 1);
        }
    }
}

proof fn package_files_are_entries(files: Files, at: Seq<Seq<char>>, n: int, k: int)
    requires
        is_plain(files),
        0 <= n <= shelf(files, at).len(),
        0 <= k < package_files(files, at, n).len(),
    ensures
        is_target(files, package_files(files, at, n)[k]),
    decreases n,
{
    if n > 0 {
        let known = package_files(files, at, n - 1);
        if k < known.len() {
            package_files_are_entries(files, at, n - 1, k);
        } else {
            let path = package_files(files, at, n)[k];
            let parts = components(shelf(files, at)[n - 1].path@);
            if is_within(files, at) {
                assert(parts.drop_last().push(parts.last()) =~= parts);
                assert(path == files.entries[n - 1].path@);
            } else {
                reveal_strlit("/");
                assert(path[0] == '/');
            }
        }
    }
}

proof fn targets_are_entries(
    lang: Language,
    specifier: Seq<char>,
    file: Seq<char>,
    tree: &ProjectTree,
    k: int,
)
    requires
        is_plain(tree@),
        0 <= k < targets_of(lang, specifier, file, tree).len(),
    ensures
        is_target(tree@, targets_of(lang, specifier, file, tree)[k]),
{
    let files = tree@;
    let n = files.entries.len() as int;
    match lang {
        Language::TypeScript => {
            let below = components(trim_start_by(specifier, |c: char| c == '/'));
            typescript_file_is_entry(files, files.home + below);
            typescript_file_is_entry(files, files.home + parent(components(file)) + below);
        },
        Language::Rust => {
            assert forall|parts: Seq<Seq<char>>| (#[trigger] file_of(files, parts))
                is Some implies is_target(files, file_of(files, parts)->0) by {
                file_is_entry(files, parts);
            }
        },
        Language::Python => {
            assert forall|parts: Seq<Seq<char>>| (#[trigger] file_of(files, parts))
                is Some implies is_target(files, file_of(files, parts)->0) by {
                file_is_entry(files, parts);
            }
            let pk = packages(files, tree.root(), n);
            packages_point_into(files, tree.root(), n);
            modules_point_into(files, pk, n, n);
            root_modules_point_into(files, tree.root(), with_modules(files, pk, n), n, n);
            assert forall|parts: Seq<Seq<char>>, end: int|
                (#[trigger] absolute_target(files, importable(files, tree.root()), parts, end))
                    is Some implies is_target(
                files,
                absolute_target(files, importable(files, tree.root()), parts, end)->0,
            ) by {
                absolute_target_is_entry(files, importable(files, tree.root()), parts, end);
            }
        },
        Language::Go => {
            let list = modules(files, tree.root(), n);
            let (path, i) = best_module(list, specifier, list.len() as int)->0;
            let below = components(
                trim_start_by(
                    specifier.skip(path.len() as int),
                    |c: char| c == '/',
                ),
            );
            let dir = files.home + parent(components(files.entries[i].path@)) + below;
            let at = located(files, dir)->0;
            package_files_are_entries(files, at, shelf(files, at).len() as int, k);
        },
    }
}

proof fn targets_upto_are_entries(
    lang: Language,
    specs: Seq<Seq<char>>,
    file: Seq<char>,
    tree: &ProjectTree,
    n: int,
    k: int,
)
    requires
        is_plain(tree@),
        0 <= k < targets_upto(lang, specs, file, tree, n).len(),
    ensures
        is_target(tree@, targets_upto(lang, specs, file, tree, n)[k]),
    decreases n,
{
    if n > 0 {
        let known = targets_upto(lang, specs, file, tree, n - 1);
        if k < known.len() {
            targets_upto_are_entries(lang, specs, file, tree, n - 1, k);
        } else {
            targets_are_entries(lang, specs[n - 1], file, tree, k - known.len());
        }
    }
}

/// Imports lead to entries of the project, or out of it to the root of the file system.
pub proof fn imports_lead_to_entries_or_out(tree: &ProjectTree, i: int, k: int)
    requires
        is_plain(tree@),
        0 <= k < imported_by(tree, i).len(),
    ensures
        is_target(tree@, imported_by(tree, i)[k]),
{
    let lang = source_language(tree@, tree.root(), i)->0;
    let specs = imports_of(lang, tree@.entries[i].contents->0@);
    targets_upto_are_entries(lang, specs, tree@.entries[i].path@, tree, specs.len() as int, k);
}

// ---------------------------------------------------------------------------------------------
// From one build to the next
// ---------------------------------------------------------------------------------------------
/// A file of the graph and its key are the same file.
proof fn key_is_same_file(path: Seq<char>)
    requires
        !starts_with(cache_key(path), seq!['.', '/']),
    ensures
        canonical(cache_key(path)) == canonical(path),
{
    let s = replace_char(path, '\\', '/');
    let key = cache_key(path);
    assert forall|k: int| 0 <= k < key.len() implies key[k] != '\\' by {
        if starts_with(s, seq!['.', '/']) {
            assert(key[k] == s[k + 2]);
        }
    }
    assert(replace_char(key, '\\', '/') =~= key);
}

proof fn absolute_keys_are_plain(path: Seq<char>)
    requires
        is_absolute(path),
    ensures
        !starts_with(cache_key(path), seq!['.', '/']),
{
    let s = replace_char(path, '\\', '/');
    let dots = seq!['.', '/'];
    assert(s[0] == '/');
    if starts_with(s, dots) {
        assert(s.subrange(0, 2)[0] == dots[0]);
    }
    if starts_with(cache_key(path), dots) {
        assert(s.subrange(0, 2)[0] == dots[0]);
    }
}

/// Targets and their keys name the same files.
proof fn keys_name_same_files(tree: &ProjectTree, i: int)
    requires
        is_plain(tree@),
    ensures
        same_targets(keys_of(imported_by(tree, i)), imported_by(tree, i)),
{
    let targets = imported_by(tree, i);
    let keys = keys_of(targets);
    assert forall|k: int| 0 <= k < targets.len() implies canonical(#[trigger] keys[k]) == canonical(
        targets[k],
    ) by {
        imports_lead_to_entries_or_out(tree, i, k);
        if is_entry(tree@, targets[k]) {
            let j = choose|j: int|
                0 <= j < tree@.entries.len() && #[trigger] tree@.entries[j].path@ == targets[k];
            assert(!starts_with(cache_key(tree@.entries[j].path@), seq!['.', '/']));
        } else {
            absolute_keys_are_plain(targets[k]);
        }
        key_is_same_file(targets[k]);
    }
    assert forall|x: Seq<char>| #[trigger] names_file(keys, x) <==> names_file(targets, x) by {
        if names_file(keys, x) {
            let k = choose|k: int| 0 <= k < keys.len() && canonical(#[trigger] keys[k]) == x;
            assert(canonical(targets[k]) == x);
        }
        if names_file(targets, x) {
            let k = choose|k: int| 0 <= k < targets.len() && canonical(#[trigger] targets[k]) == x;
            assert(canonical(keys[k]) == x);
        }
    }
}

proof fn scan_is_within(files: Files, root: Seq<char>, n: int)
    requires
        0 <= n,
    ensures
        forall|k: int|
            0 <= k < scanned_files(files, root, n).len() ==> 0 <= #[trigger] scanned_files(
                files,
                root,
                n,
            )[k] < n,
    decreases n,
{
    if n > 0 {
        scan_is_within(files, root, n - 1);
        let known = scanned_files(files, root, n - 1);
        let all = scanned_files(files, root, n);
        assert forall|k: int| 0 <= k < all.len() implies 0 <= #[trigger] all[k] < n by {
            if k < known.len() {
                assert(all[k] == known[k]);
            }
        }
    }
}

proof fn cacheable_are_chosen(tree: &ProjectTree, list: Seq<int>, n: int)
    requires
        0 <= n <= list.len(),
    ensures
        forall|k: int|
            0 <= k < cacheable(tree, list, n).len() ==> is_cacheable(
                tree,
                #[trigger] cacheable(tree, list, n)[k],
            ) && list.contains(cacheable(tree, list, n)[k]),
        forall|a: int|
            0 <= a < n && is_cacheable(tree, #[trigger] list[a]) ==> cacheable(
                tree,
                list,
                n,
            ).contains(list[a]),
    decreases n,
{
    if n > 0 {
        cacheable_are_chosen(tree, list, n - 1);
        let known = cacheable(tree, list, n - 1);
        let all = cacheable(tree, list, n);
        assert(list.contains(list[n - 1]));
        assert forall|a: int| 0 <= a < n && is_cacheable(
            tree,
            #[trigger] list[a],
        ) implies all.contains(list[a]) by {
            if a < n - 1 {
                let j = choose|j: int| 0 <= j < known.len() && known[j] == list[a];
                assert(all[j] == list[a]);
            } else {
                assert(all[known.len() as int] == list[a]);
            }
        }
    }
}

proof fn cached_at_finds(files: Seq<CachedFile>, key: Seq<char>, n: int)
    requires
        0 <= n <= files.len(),
    ensures
        match cached_at(files, key, n) {
            Some(c) => 0 <= c < n && files[c].path@ == key,
            None => forall|j: int| 0 <= j < n ==> (#[trigger] files[j]).path@ != key,
        },
    decreases n,
{
    if n > 0 {
        cached_at_finds(files, key, n - 1);
    }
}

/// `files` holds exactly what is to be known of the cacheable source files.
spec fn is_full(tree: &ProjectTree, files: Seq<CachedFile>) -> bool {
    let kept = cacheable(tree, scan(tree), scan(tree).len() as int);
    files.len() == kept.len() && forall|k: int|
        0 <= k < kept.len() ==> is_write(#[trigger] files[k], tree, kept[k])
}

/// A full cache describes a source file where, and only where, it is cacheable.
proof fn full_cache_describes(tree: &ProjectTree, files: Seq<CachedFile>, a: int)
    requires
        is_plain(tree@),
        is_full(tree, files),
        0 <= a < scan(tree).len(),
    ensures
        unchanged(files, tree@.entries[scan(tree)[a]]) is Some <==> is_cacheable(tree, scan(tree)[a]),
        same_targets(
            known_targets(tree, files, scan(tree)[a]),
            imported_by(tree, scan(tree)[a]),
        ),
{
    let list = scan(tree);
    let n = list.len() as int;
    let kept = cacheable(tree, list, n);
    let i = list[a];
    let key = cache_key(tree@.entries[i].path@);
    scan_is_within(tree@, tree.root(), tree@.entries.len() as int);
    cacheable_are_chosen(tree, list, n);
    cached_at_finds(files, key, files.len() as int);
    keys_name_same_files(tree, i);
    match cached_at(files, key, files.len() as int) {
        Some(c) => {
            assert(is_write(files[c], tree, kept[c]));
            let j = choose|j: int| 0 <= j < list.len() && list[j] == kept[c];
            assert(0 <= list[j] < tree@.entries.len());
            assert(kept[c] == i) by {
                if kept[c] < i {
                    assert(cache_key(tree@.entries[kept[c]].path@) != cache_key(tree@.entries[i].path@));
                } else if kept[c] > i {
                    assert(cache_key(tree@.entries[i].path@) != cache_key(tree@.entries[kept[c]].path@));
                }
            }
        },
        None => {
            if is_cacheable(tree, i) {
                assert(kept.contains(i));
                let c = choose|c: int| 0 <= c < kept.len() && kept[c] == i;
                assert(is_write(files[c], tree, kept[c]));
            }
        },
    }
}

proof fn full_cache_leaves_the_rest(tree: &ProjectTree, files: Seq<CachedFile>, n: int)
    requires
        is_plain(tree@),
        is_full(tree, files),
        0 <= n <= scan(tree).len(),
    ensures
        modified(tree, files, scan(tree), n).len() + cacheable(tree, scan(tree), n).len() == n,
        forall|k: int|
            0 <= k < modified(tree, files, scan(tree), n).len() ==> !is_cacheable(
                tree,
                #[trigger] modified(tree, files, scan(tree), n)[k],
            ),
    decreases n,
{
    if n > 0 {
        full_cache_leaves_the_rest(tree, files, n - 1);
        full_cache_describes(tree, files, n - 1);
    }
}

proof fn nothing_cacheable(tree: &ProjectTree, list: Seq<int>, n: int)
    requires
        0 <= n <= list.len(),
        forall|k: int| 0 <= k < list.len() ==> !is_cacheable(tree, #[trigger] list[k]),
    ensures
        cacheable(tree, list, n).len() == 0,
    decreases n,
{
    if n > 0 {
        nothing_cacheable(tree, list, n - 1);
    }
}

proof fn everything_cacheable(tree: &ProjectTree, list: Seq<int>, n: int)
    requires
        0 <= n <= list.len(),
        forall|k: int| 0 <= k < list.len() ==> is_cacheable(tree, #[trigger] list[k]),
    ensures
        cacheable(tree, list, n) == list.take(n),
    decreases n,
{
    if n > 0 {
        everything_cacheable(tree, list, n - 1);
    }
    assert(cacheable(tree, list, n) =~= list.take(n));
}

proof fn keys_are_seen(tree: &ProjectTree, list: Seq<int>, n: int)
    requires
        0 <= n <= list.len(),
    ensures
        forall|a: int|
            0 <= a < n ==> scanned_keys(tree, list, n).contains(
                cache_key(tree@.entries[#[trigger] list[a]].path@),
            ),
    decreases n,
{
    if n > 0 {
        keys_are_seen(tree, list, n - 1);
    }
}

proof fn nothing_missing(files: Seq<CachedFile>, seen: Set<Seq<char>>, n: int)
    requires
        0 <= n <= files.len(),
        forall|k: int| 0 <= k < files.len() ==> seen.contains((#[trigger] files[k]).path@),
    ensures
        missing(files, seen, n).len() == 0,
    decreases n,
{
    if n > 0 {
        nothing_missing(files, seen, n - 1);
    }
}

proof fn empty_cache_modifies_all(tree: &ProjectTree, list: Seq<int>, n: int)
    requires
        0 <= n <= list.len(),
    ensures
        modified(tree, Seq::empty(), list, n) == list.take(n),
    decreases n,
{
    if n > 0 {
        empty_cache_modifies_all(tree, list, n - 1);
    }
    assert(modified(tree, Seq::empty(), list, n) =~= list.take(n));
}

/// What a build with an empty cache writes is the truth about the project.
pub proof fn first_build_writes_the_truth(tree: &ProjectTree, first: CachedBuild)
    requires
        is_plain(tree@),
        is_cached_build(first, tree, Seq::empty()),
    ensures
        is_truthful(tree, first.writes@),
{
    first_build_fills(tree, first);
    assert forall|a: int| 0 <= a < scan(tree).len() implies same_targets(
        known_targets(tree, first.writes@, #[trigger] scan(tree)[a]),
        imported_by(tree, scan(tree)[a]),
    ) by {
        full_cache_describes(tree, first.writes@, a);
    }
}

proof fn first_build_fills(tree: &ProjectTree, first: CachedBuild)
    requires
        is_cached_build(first, tree, Seq::empty()),
    ensures
        is_full(tree, first.writes@),
{
    let list = scan(tree);
    let n = list.len() as int;
    empty_cache_modifies_all(tree, list, n);
    assert(list.take(n) =~= list);
}

/// Nothing is in an empty cache, so nothing in it is wrong.
pub proof fn empty_cache_is_truthful(tree: &ProjectTree)
    ensures
        is_truthful(tree, Seq::empty()),
{
    assert forall|a: int| 0 <= a < scan(tree).len() implies same_targets(
        known_targets(tree, Seq::empty(), #[trigger] scan(tree)[a]),
        imported_by(tree, scan(tree)[a]),
    ) by {
        assert(known_targets(tree, Seq::empty(), scan(tree)[a]) == imported_by(
            tree,
            scan(tree)[a],
        ));
    }
}

/// A build with a truthful cache gives the graph of a build from scratch.
pub proof fn truthful_cache_gives_the_graph(
    tree: &ProjectTree,
    files: Seq<CachedFile>,
    build: CachedBuild,
)
    requires
        is_truthful(tree, files),
        is_cached_build(build, tree, files),
    ensures
        build.graph@ == graph_edges(tree),
{
    true_cache_gives_fresh_graph(tree, files, scan(tree), scan(tree).len() as int);
}

/// A second build, with what the first wrote into an empty cache and nothing changed since, gives
/// the same graph, and finds nothing to write and nothing stale. It extracts again only the files
/// that could not be cached.
pub proof fn second_build_finds_nothing_new(
    tree: &ProjectTree,
    first: CachedBuild,
    second: CachedBuild,
)
    requires
        is_plain(tree@),
        is_cached_build(first, tree, Seq::empty()),
        is_cached_build(second, tree, first.writes@),
    ensures
        first.graph@ == graph_edges(tree),
        second.graph@ == graph_edges(tree),
        second.scanned == first.scanned == first.re_extracted,
        second.re_extracted == second.scanned - first.writes@.len(),
        second.writes@.len() == 0,
        second.stale@.len() == 0,
{
    let list = scan(tree);
    let n = list.len() as int;
    let files = first.writes@;
    empty_cache_extracts_everything(tree, list, n);
    first_build_fills(tree, first);
    first_build_writes_the_truth(tree, first);
    truthful_cache_gives_the_graph(tree, files, second);
    full_cache_leaves_the_rest(tree, files, n);
    let rest = modified(tree, files, list, n);
    nothing_cacheable(tree, rest, rest.len() as int);
    let kept = cacheable(tree, list, n);
    let seen = scanned_keys(tree, list, n);
    keys_are_seen(tree, list, n);
    cacheable_are_chosen(tree, list, n);
    assert forall|k: int| 0 <= k < files.len() implies seen.contains(
        (#[trigger] files[k]).path@,
    ) by {
        assert(is_write(files[k], tree, kept[k]));
        let a = choose|a: int| 0 <= a < list.len() && list[a] == kept[k];
        assert(seen.contains(cache_key(tree@.entries[list[a]].path@)));
    }
    nothing_missing(files, seen, files.len() as int);
    assert(second.stale.deep_view().len() == second.stale@.len());
}

/// Where all the source files were read and their modification times are known, the first build
/// writes each of them under its key, and the second extracts nothing.
pub proof fn cached_project_is_not_extracted_again(
    tree: &ProjectTree,
    first: CachedBuild,
    second: CachedBuild,
)
    requires
        is_plain(tree@),
        forall|a: int| 0 <= a < scan(tree).len() ==> is_cacheable(tree, #[trigger] scan(tree)[a]),
        is_cached_build(first, tree, Seq::empty()),
        is_cached_build(second, tree, first.writes@),
    ensures
        first.writes@.len() == scan(tree).len(),
        forall|a: int|
            0 <= a < scan(tree).len() ==> (#[trigger] first.writes@[a]).path@ == cache_key(
                tree@.entries[scan(tree)[a]].path@,
            ),
        second.re_extracted == 0,
        first.graph@ == graph_edges(tree),
        second.graph@ == graph_edges(tree),
{
    let list = scan(tree);
    second_build_finds_nothing_new(tree, first, second);
    first_build_fills(tree, first);
    everything_cacheable(tree, list, list.len() as int);
    assert(list.take(list.len() as int) =~= list);
    assert forall|a: int| 0 <= a < list.len() implies (#[trigger] first.writes@[a]).path@
        == cache_key(tree@.entries[list[a]].path@) by {
        assert(is_write(first.writes@[a], tree, list[a]));
    }
}

} // verus!
