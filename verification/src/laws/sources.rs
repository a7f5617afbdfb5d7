//! Which files the import graph is built from, and what its edges are.
use vstd::prelude::*;

use crate::imports::go::{declared_module, go_skip};
use crate::imports::python::{is_init, python_skip};
use crate::imports::rust::{declares_crate, rust_skip};
use crate::imports::typescript::typescript_extensions;
use crate::laws::modules::is_module;
use crate::laws::naming::stem_and_extension;
use crate::paths::{canonical, components, parent};
use crate::text::listed;
use crate::tree::{is_passed_over, Files, ProjectTree};
use crate::walker::{
    graph_edges, graph_holds_the_imports, imported_by, imports_of, language, scan, scanned_files,
    skip_dirs, source_language, targets_of, targets_upto, Language,
};

verus! {

/// The directories that hold no sources of the project's own.
pub open spec fn holds_no_sources(name: Seq<char>) -> bool {
    ||| name == ".git"@ || name == ".hg"@ || name == ".svn"@ || name == "node_modules"@
    ||| name == "dist"@ || name == "build"@ || name == ".next"@ || name == ".nuxt"@
    ||| name == ".output"@ || name == ".turbo"@ || name == ".vercel"@ || name == "coverage"@
    ||| name == ".cache"@ || name == "target"@ || name == "__pycache__"@ || name == ".venv"@
    ||| name == "venv"@ || name == ".pytest_cache"@ || name == ".mypy_cache"@
    ||| name == ".ruff_cache"@ || name == "site-packages"@ || name == ".tox"@
    ||| name == "egg-info"@ || name == "vendor"@ || name == ".bundle"@ || name == ".gradle"@
    ||| name == ".idea"@ || name == "Pods"@ || name == "DerivedData"@ || name == ".gaffer"@
    ||| name == "worktrees"@ || name == ".worktrees"@
}

/// The directories in which neither packages nor modules are looked for.
pub open spec fn holds_no_manifests(name: Seq<char>) -> bool {
    ||| name == "node_modules"@ || name == "target"@ || name == ".git"@ || name == ".gaffer"@
    ||| name == "dist"@ || name == "vendor"@ || name == "worktrees"@ || name == ".worktrees"@
}

proof fn skipped_are_listed(name: Seq<char>)
    ensures
        listed(skip_dirs(), name) <==> holds_no_sources(name),
{
    let l = skip_dirs();
    if holds_no_sources(name) {
        assert(l[0] == name || l[1] == name || l[2] == name || l[3] == name || l[4] == name || l[5]
            == name || l[6] == name || l[7] == name || l[8] == name || l[9] == name || l[10] == name
            || l[11] == name || l[12] == name || l[13] == name || l[14] == name || l[15] == name
            || l[16] == name || l[17] == name || l[18] == name || l[19] == name || l[20] == name
            || l[21] == name || l[22] == name || l[23] == name || l[24] == name || l[25] == name
            || l[26] == name || l[27] == name || l[28] == name || l[29] == name || l[30] == name
            || l[31] == name);
    }
}

/// The language of a file shows in its extension.
pub proof fn extensions_show_the_language(s: Seq<char>, e: Seq<char>)
    requires
        is_module(s),
        is_module(e),
    ensures
        language(s + seq!['.'] + e) == if e == "ts"@ || e == "tsx"@ || e == "js"@ || e == "jsx"@ || e
            == "mjs"@ || e == "cjs"@ || e == "mts"@ || e == "cts"@ {
            Some(Language::TypeScript)
        } else if e == "rs"@ {
            Some(Language::Rust)
        } else if e == "py"@ {
            Some(Language::Python)
        } else if e == "go"@ {
            Some(Language::Go)
        } else {
            None
        },
{
    stem_and_extension(s, e);
    let l = typescript_extensions();
    if e == "ts"@ || e == "tsx"@ || e == "js"@ || e == "jsx"@ || e == "mjs"@ || e == "cjs"@ || e
        == "mts"@ || e == "cts"@ {
        assert(l[0] == e || l[1] == e || l[2] == e || l[3] == e || l[4] == e || l[5] == e || l[6]
            == e || l[7] == e);
    }
}

/// A file is a source where its name shows a language, and neither the project root nor a directory
/// on the way to it holds no sources.
pub proof fn sources_are_files_in_their_places(files: Files, root: Seq<char>, i: int)
    ensures
        ({
            let parts = components(files.entries[i].path@);
            let hidden = holds_no_sources(root) || exists|k: int|
                0 <= k < parts.len() - 1 && holds_no_sources(#[trigger] parts[k]);
            source_language(files, root, i) == if files.entries[i].is_dir || parts.len() == 0
                || hidden {
                None
            } else {
                language(parts.last())
            }
        }),
{
    let parts = components(files.entries[i].path@);
    let dir = parent(parts);
    skipped_are_listed(root);
    if parts.len() > 0 {
        if is_passed_over(dir, root, skip_dirs()) && !listed(skip_dirs(), root) {
            let k = choose|k: int| 0 <= k < dir.len() && listed(skip_dirs(), #[trigger] dir[k]);
            skipped_are_listed(dir[k]);
            assert(parts[k] == dir[k]);
        }
        if exists|k: int| 0 <= k < parts.len() - 1 && holds_no_sources(#[trigger] parts[k]) {
            let k = choose|k: int| 0 <= k < parts.len() - 1 && holds_no_sources(#[trigger] parts[k]);
            skipped_are_listed(parts[k]);
            assert(dir[k] == parts[k]);
        }
    }
}

proof fn scan_holds(files: Files, root: Seq<char>, n: int, i: int)
    requires
        0 <= n <= files.entries.len(),
        n <= 10_000,
    ensures
        scanned_files(files, root, n).len() <= n,
        scanned_files(files, root, n).contains(i) <==> 0 <= i < n && source_language(
            files,
            root,
            i,
        ) is Some,
    decreases n,
{
    if n > 0 {
        scan_holds(files, root, n - 1, i);
        let q = scanned_files(files, root, n - 1);
        let s = scanned_files(files, root, n);
        if source_language(files, root, n - 1) is Some {
            if q.contains(i) {
                let k = choose|k: int| 0 <= k < q.len() && q[k] == i;
                assert(s[k] == i);
            }
            assert(s[q.len() as int] == n - 1);
            if s.contains(i) && i != n - 1 {
                let k = choose|k: int| 0 <= k < s.len() && s[k] == i;
                assert(q[k] == i);
            }
        }
    }
}

proof fn scan_is_limited(files: Files, root: Seq<char>, n: int)
    ensures
        scanned_files(files, root, n).len() <= 10_000,
    decreases n,
{
    if n > 0 {
        scan_is_limited(files, root, n - 1);
    }
}

/// A build looks at ten thousand sources at most, and in a project with no more entries than that
/// at all of them.
pub proof fn all_sources_are_looked_at(tree: &ProjectTree, i: int)
    ensures
        scan(tree).len() <= 10_000,
        tree@.entries.len() <= 10_000 ==> (scan(tree).contains(i) <==> 0 <= i < tree@.entries.len()
            && source_language(tree@, tree.root(), i) is Some),
{
    scan_is_limited(tree@, tree.root(), tree@.entries.len() as int);
    if tree@.entries.len() <= 10_000 {
        scan_holds(tree@, tree.root(), tree@.entries.len() as int, i);
    }
}

proof fn targets_add_up(
    lang: Language,
    specs: Seq<Seq<char>>,
    file: Seq<char>,
    tree: &ProjectTree,
    n: int,
    k: int,
    t: Seq<char>,
)
    requires
        0 <= k < n <= specs.len(),
        listed(targets_of(lang, specs[k], file, tree), t),
    ensures
        listed(targets_upto(lang, specs, file, tree, n), t),
    decreases n,
{
    let rest = targets_upto(lang, specs, file, tree, n - 1);
    let last = targets_of(lang, specs[n - 1], file, tree);
    let all = targets_upto(lang, specs, file, tree, n);
    if k < n - 1 {
        targets_add_up(lang, specs, file, tree, n - 1, k, t);
        let i = choose|i: int| 0 <= i < rest.len() && #[trigger] rest[i] == t;
        assert(all[i] == t);
    } else {
        let i = choose|i: int| 0 <= i < last.len() && #[trigger] last[i] == t;
        assert(all[rest.len() + i] == t);
    }
}

/// What a source file imports is an edge of the graph: from the file to each file that one of its
/// specifiers leads to.
pub proof fn imports_are_edges(tree: &ProjectTree, a: int, k: int, t: Seq<char>)
    requires
        0 <= a < scan(tree).len(),
        ({
            let i = scan(tree)[a];
            let lang = source_language(tree@, tree.root(), i);
            let text = tree@.entries[i].contents;
            &&& lang is Some
            &&& text is Some
            &&& 0 <= k < imports_of(lang->0, text->0@).len()
            &&& listed(
                targets_of(
                    lang->0,
                    imports_of(lang->0, text->0@)[k],
                    tree@.entries[i].path@,
                    tree,
                ),
                t,
            )
        }),
    ensures
        graph_edges(tree).contains(
            (canonical(tree@.entries[scan(tree)[a]].path@), canonical(t)),
        ),
{
    let i = scan(tree)[a];
    let lang = source_language(tree@, tree.root(), i)->0;
    let specs = imports_of(lang, tree@.entries[i].contents->0@);
    let file = tree@.entries[i].path@;
    targets_add_up(lang, specs, file, tree, specs.len() as int, k, t);
    let all = imported_by(tree, i);
    let j = choose|j: int| 0 <= j < all.len() && #[trigger] all[j] == t;
    let e = (canonical(file), canonical(t));
    graph_holds_the_imports(tree, scan(tree), scan(tree).len() as int, e);
    assert(e == (
        canonical(tree@.entries[scan(tree)[a]].path@),
        canonical(imported_by(tree, scan(tree)[a])[j]),
    ));
}

// ---------------------------------------------------------------------------------------------
// Manifests
// ---------------------------------------------------------------------------------------------
proof fn manifests_are_listed(name: Seq<char>)
    ensures
        listed(go_skip(), name) <==> holds_no_manifests(name),
        listed(rust_skip(), name) <==> holds_no_manifests(name) || name == ".venv"@ || name == "venv"@,
        listed(python_skip(), name) <==> holds_no_manifests(name) || name == ".venv"@ || name
            == "venv"@ || name == "__pycache__"@,
{
    let g = go_skip();
    let r = rust_skip();
    let p = python_skip();
    if holds_no_manifests(name) || name == ".venv"@ || name == "venv"@ || name == "__pycache__"@ {
        assert(g[0] == name || g[1] == name || g[2] == name || g[3] == name || g[4] == name || g[5]
            == name || g[6] == name || g[7] == name || !holds_no_manifests(name));
        assert(r[0] == name || r[1] == name || r[2] == name || r[3] == name || r[4] == name || r[5]
            == name || r[6] == name || r[7] == name || r[8] == name || r[9] == name || name
            == "__pycache__"@);
        assert(p[0] == name || p[1] == name || p[2] == name || p[3] == name || p[4] == name || p[5]
            == name || p[6] == name || p[7] == name || p[8] == name || p[9] == name || p[10] == name);
    }
}

/// Neither crates, nor modules, nor packages are looked for in the directories that hold what
/// others wrote or tools made.
pub proof fn foreign_manifests_do_not_count(
    files: Files,
    root: Seq<char>,
    i: int,
    k: int,
    name: Seq<char>,
)
    requires
        ({
            let parts = components(files.entries[i].path@);
            holds_no_manifests(root) || (0 <= k < parts.len() && holds_no_manifests(parts[k]))
        }),
    ensures
        !declares_crate(files, root, i, name),
        declared_module(files, root, i) is None,
        !is_init(files, root, i),
{
    let parts = components(files.entries[i].path@);
    manifests_are_listed(root);
    if !holds_no_manifests(root) {
        manifests_are_listed(parts[k]);
    }
}

/// The manifest of a crate with a `src` directory declares it, under its name with underscores,
/// unless it stands in such a directory or more than eight levels deep.
pub proof fn manifests_declare_crates(files: Files, root: Seq<char>, i: int, own: Seq<char>)
    requires
        ({
            let e = files.entries[i];
            let parts = components(e.path@);
            &&& !e.is_dir
            &&& 0 < parts.len() <= 8
            &&& parts.last() == "Cargo.toml"@
            &&& e.contents is Some
            &&& crate::imports::rust::crate_name(e.contents->0@) == Some(own)
            &&& crate::tree::leads_to_dir(files, parts.drop_last().push("src"@))
            &&& !holds_no_manifests(root) && root != ".venv"@ && root != "venv"@
            &&& forall|k: int|
                0 <= k < parts.len() ==> !holds_no_manifests(#[trigger] parts[k]) && parts[k]
                    != ".venv"@ && parts[k] != "venv"@
        }),
    ensures
        declares_crate(files, root, i, crate::text::replace_char(own, '-', '_')),
{
    let parts = components(files.entries[i].path@);
    manifests_are_listed(root);
    assert(!is_passed_over(parts, root, rust_skip())) by {
        if is_passed_over(parts, root, rust_skip()) {
            let k = choose|k: int| 0 <= k < parts.len() && listed(rust_skip(), #[trigger] parts[k]);
            manifests_are_listed(parts[k]);
        }
    }
}

} // verus!
