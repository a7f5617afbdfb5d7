//! Building the import graph of a project, from scratch or with the help of a cache.
use vstd::hash_map::StringHashMap;
use vstd::hash_set::StringHashSet;
use vstd::prelude::*;

use crate::graph::{Edge, ImportGraph};
use crate::imports::go::{go_imports, go_targets, GoExtractor};
use crate::imports::python::{python_imports, python_target, PythonExtractor};
use crate::imports::rust::{rust_imports, rust_target, RustExtractor};
use crate::imports::typescript::{
    typescript_extensions, typescript_imports, typescript_target, TypeScriptExtractor,
};
use crate::imports::{at_most_one, ImportExtractor};
use crate::paths::{canonical, components, extension, extension_of, parent, parent_parts, parts_of};
use crate::text::{
    chars_of, is_listed, listed, replace_char, replace_in, rows, slice_of, spells, strip_prefix,
    text_of,
};
use crate::tree::{is_passed_over, passes_over, Files, ProjectTree, TreeEntry};

verus! {

/// Most source files that a build looks at. Beyond them the graph is partial.
pub const MAX_FILES: usize = 10_000;

/// Directories that hold no sources of the project's own.
pub open spec fn skip_dirs() -> Seq<Seq<char>> {
    seq![
        ".git"@, ".hg"@, ".svn"@, "node_modules"@, "dist"@, "build"@, ".next"@, ".nuxt"@,
        ".output"@, ".turbo"@, ".vercel"@, "coverage"@, ".cache"@, "target"@, "__pycache__"@,
        ".venv"@, "venv"@, ".pytest_cache"@, ".mypy_cache"@, ".ruff_cache"@, "site-packages"@,
        ".tox"@, "egg-info"@, "vendor"@, ".bundle"@, ".gradle"@, ".idea"@, "Pods"@,
        "DerivedData"@, ".gaffer"@, "worktrees"@, ".worktrees"@,
    ]
}

/// The languages whose imports are understood.
#[derive(Clone, Copy, PartialEq, Eq, Structural, Debug)]
pub enum Language {
    TypeScript,
    Rust,
    Python,
    Go,
}

/// The language of a file name.
pub open spec fn language(name: Seq<char>) -> Option<Language> {
    match extension(name) {
        Some(e) => if listed(typescript_extensions(), e) {
            Some(Language::TypeScript)
        } else if e == "rs"@ {
            Some(Language::Rust)
        } else if e == "py"@ {
            Some(Language::Python)
        } else if e == "go"@ {
            Some(Language::Go)
        } else {
            None
        },
        None => None,
    }
}

/// The specifiers that `source` imports.
pub open spec fn imports_of(lang: Language, source: Seq<char>) -> Seq<Seq<char>> {
    match lang {
        Language::TypeScript => typescript_imports(source),
        Language::Rust => rust_imports(source),
        Language::Python => python_imports(source),
        Language::Go => go_imports(source),
    }
}

/// The files that `specifier` leads to from `file`.
pub open spec fn targets_of(
    lang: Language,
    specifier: Seq<char>,
    file: Seq<char>,
    tree: &ProjectTree,
) -> Seq<Seq<char>> {
    match lang {
        Language::TypeScript => at_most_one(typescript_target(tree@, specifier, file)),
        Language::Rust => at_most_one(rust_target(tree@, tree.root(), specifier, file)),
        Language::Python => at_most_one(python_target(tree@, tree.root(), specifier, file)),
        Language::Go => go_targets(tree@, tree.root(), specifier),
    }
}

/// The language of entry `i`, where it is a source file outside the skipped directories.
pub open spec fn source_language(files: Files, root: Seq<char>, i: int) -> Option<
    Language,
> {
    let parts = components(files.entries[i].path@);
    if !files.entries[i].is_dir && parts.len() > 0 && !is_passed_over(parent(parts), root, skip_dirs()) {
        language(parts.last())
    } else {
        None
    }
}

/// The source files among the first `n` files, up to the limit.
pub open spec fn scanned_files(files: Files, root: Seq<char>, n: int) -> Seq<int>
    decreases n,
{
    if n <= 0 {
        Seq::empty()
    } else {
        let known = scanned_files(files, root, n - 1);
        if known.len() < MAX_FILES && source_language(files, root, n - 1) is Some {
            known.push(n - 1)
        } else {
            known
        }
    }
}

/// All the source files that a build looks at.
pub open spec fn scan(tree: &ProjectTree) -> Seq<int> {
    scanned_files(tree@, tree.root(), tree@.entries.len() as int)
}

/// The targets of the first `n` specifiers, in order.
pub open spec fn targets_upto(
    lang: Language,
    specs: Seq<Seq<char>>,
    file: Seq<char>,
    tree: &ProjectTree,
    n: int,
) -> Seq<Seq<char>>
    decreases n,
{
    if n <= 0 {
        Seq::empty()
    } else {
        targets_upto(lang, specs, file, tree, n - 1) + targets_of(lang, specs[n - 1], file, tree)
    }
}

/// The files that source file `i` imports, in the order of its imports; none where it could not be
/// read.
pub open spec fn imported_by(tree: &ProjectTree, i: int) -> Seq<Seq<char>> {
    match (source_language(tree@, tree.root(), i), tree@.entries[i].contents) {
        (Some(lang), Some(source)) => {
            let specs = imports_of(lang, source@);
            targets_upto(lang, specs, tree@.entries[i].path@, tree, specs.len() as int)
        },
        _ => Seq::empty(),
    }
}

/// `edges` and the imports of the first `n` of `targets` by `file`.
pub open spec fn with_imports(
    edges: Set<Edge>,
    file: Seq<char>,
    targets: Seq<Seq<char>>,
    n: int,
) -> Set<Edge>
    decreases n,
{
    if n <= 0 {
        edges
    } else {
        with_imports(edges, file, targets, n - 1).insert(
            (canonical(file), canonical(targets[n - 1])),
        )
    }
}

/// The imports of the first `n` of the files `list`.
pub open spec fn fresh_edges(tree: &ProjectTree, list: Seq<int>, n: int) -> Set<Edge>
    decreases n,
{
    if n <= 0 {
        Set::empty()
    } else {
        let i = list[n - 1];
        let targets = imported_by(tree, i);
        with_imports(fresh_edges(tree, list, n - 1), tree@.entries[i].path@, targets, targets.len() as int)
    }
}

/// The edges of the import graph of a project.
pub open spec fn graph_edges(tree: &ProjectTree) -> Set<Edge> {
    fresh_edges(tree, scan(tree), scan(tree).len() as int)
}

// ---------------------------------------------------------------------------------------------
// Laws
// ---------------------------------------------------------------------------------------------
/// What adding the imports of one file comes to.
pub proof fn with_imports_adds(
    edges: Set<Edge>,
    file: Seq<char>,
    targets: Seq<Seq<char>>,
    n: int,
    e: Edge,
)
    requires
        0 <= n <= targets.len(),
    ensures
        with_imports(edges, file, targets, n).contains(e) <==> (edges.contains(e) || exists|k: int|
            0 <= k < n && e == (canonical(file), canonical(#[trigger] targets[k]))),
    decreases n,
{
    if n > 0 {
        with_imports_adds(edges, file, targets, n - 1, e);
        if e == (canonical(file), canonical(targets[n - 1])) {
            assert(0 <= n - 1 < n);
        }
    }
}

/// The graph holds exactly the imports of the scanned files: `e` is an edge where, and only where,
/// one of these files imports a target, and `e` leads from the one to the other.
pub proof fn graph_holds_the_imports(tree: &ProjectTree, list: Seq<int>, n: int, e: Edge)
    requires
        0 <= n <= list.len(),
    ensures
        fresh_edges(tree, list, n).contains(e) <==> exists|a: int, k: int|
            0 <= a < n && 0 <= k < imported_by(tree, list[a]).len() && e == (
                canonical(tree@.entries[list[a]].path@),
                canonical(#[trigger] imported_by(tree, list[a])[k]),
            ),
    decreases n,
{
    if n > 0 {
        graph_holds_the_imports(tree, list, n - 1, e);
        let i = list[n - 1];
        let targets = imported_by(tree, i);
        with_imports_adds(
            fresh_edges(tree, list, n - 1),
            tree@.entries[i].path@,
            targets,
            targets.len() as int,
            e,
        );
        if exists|k: int|
            0 <= k < targets.len() && e == (canonical(tree@.entries[i].path@), canonical(
                #[trigger] targets[k],
            )) {
            let k = choose|k: int|
                0 <= k < targets.len() && e == (canonical(tree@.entries[i].path@), canonical(
                    #[trigger] targets[k],
                ));
            assert(e == (
                canonical(tree@.entries[list[n - 1]].path@),
                canonical(imported_by(tree, list[n - 1])[k]),
            ));
        }
    }
}

// ---------------------------------------------------------------------------------------------
// Building from scratch
// ---------------------------------------------------------------------------------------------
fn skip_list() -> (r: Vec<&'static str>)
    ensures
        r.deep_view() == skip_dirs(),
{
    let r = vec![
        ".git", ".hg", ".svn", "node_modules", "dist", "build", ".next", ".nuxt",
        ".output", ".turbo", ".vercel", "coverage", ".cache", "target", "__pycache__",
        ".venv", "venv", ".pytest_cache", ".mypy_cache", ".ruff_cache", "site-packages",
        ".tox", "egg-info", "vendor", ".bundle", ".gradle", ".idea", "Pods",
        "DerivedData", ".gaffer", "worktrees", ".worktrees",
    ];
    assert(r.deep_view() =~= skip_dirs());
    r
}

/// The extractors of all languages, prepared for one project.
struct Extractors {
    typescript: TypeScriptExtractor,
    rust: RustExtractor,
    python: PythonExtractor,
    go: GoExtractor,
    extensions: Vec<&'static str>,
    skip: Vec<&'static str>,
}

impl Extractors {
    spec fn fits(&self, tree: &ProjectTree) -> bool {
        &&& self.typescript.fits(tree)
        &&& self.rust.fits(tree)
        &&& self.python.fits(tree)
        &&& self.go.fits(tree)
        &&& self.extensions.deep_view() == typescript_extensions()
        &&& self.skip.deep_view() == skip_dirs()
    }

    fn new(tree: &ProjectTree) -> (r: Extractors)
        ensures
            r.fits(tree),
    {
        let typescript = TypeScriptExtractor::new();
        let mut rust = RustExtractor::new();
        rust.prepare(tree);
        let mut python = PythonExtractor::new();
        python.prepare(tree);
        let mut go = GoExtractor::new();
        go.prepare(tree);
        let extensions = typescript.extensions();
        Extractors { typescript, rust, python, go, extensions, skip: skip_list() }
    }

    /// The language of an entry that is a source file outside the skipped directories.
    fn language_of_entry(&self, tree: &ProjectTree, i: usize) -> (r: Option<Language>)
        requires
            self.fits(tree),
            i < tree@.entries.len(),
        ensures
            r == source_language(tree@, tree.root(), i as int),
    {
        let entry = &tree.entries()[i];
        if entry.is_dir {
            return None;
        }
        let parts = parts_of(entry.path.as_str());
        let n: usize = parts.len();
        if n == 0 {
            return None;
        }
        assert(rows(parts@).last() == parts@[n - 1]@);
        let lang = match extension_of(&parts[n - 1]) {
            Some(e) => if is_listed(&self.extensions, text_of(&e).as_str()) {
                Some(Language::TypeScript)
            } else if spells(&e, "rs") {
                Some(Language::Rust)
            } else if spells(&e, "py") {
                Some(Language::Python)
            } else if spells(&e, "go") {
                Some(Language::Go)
            } else {
                None
            },
            None => None,
        };
        if lang.is_some() && passes_over(&parent_parts(&parts), tree.root_name(), &self.skip) {
            return None;
        }
        lang
    }

    fn imports(&self, lang: Language, source: &str) -> (r: Vec<String>)
        ensures
            r.deep_view() == imports_of(lang, source@),
    {
        match lang {
            Language::TypeScript => self.typescript.extract_imports(source),
            Language::Rust => self.rust.extract_imports(source),
            Language::Python => self.python.extract_imports(source),
            Language::Go => self.go.extract_imports(source),
        }
    }

    fn targets(&self, lang: Language, specifier: &str, file: &str, tree: &ProjectTree) -> (r: Vec<
        String,
    >)
        requires
            self.fits(tree),
        ensures
            r.deep_view() == targets_of(lang, specifier@, file@, tree),
    {
        match lang {
            Language::TypeScript => self.typescript.resolve_many(specifier, file, tree),
            Language::Rust => self.rust.resolve_many(specifier, file, tree),
            Language::Python => self.python.resolve_many(specifier, file, tree),
            Language::Go => self.go.resolve_many(specifier, file, tree),
        }
    }

    /// The files that source file `i` of language `lang` imports.
    fn imported(&self, tree: &ProjectTree, i: usize, lang: Language) -> (r: Vec<String>)
        requires
            self.fits(tree),
            i < tree@.entries.len(),
            source_language(tree@, tree.root(), i as int) == Some(lang),
        ensures
            r.deep_view() == imported_by(tree, i as int),
    {
        let entry = &tree.entries()[i];
        let mut r: Vec<String> = Vec::new();
        assert(r.deep_view() =~= Seq::<Seq<char>>::empty());
        if let Some(source) = &entry.contents {
            let specs = self.imports(lang, source.as_str());
            let ghost all = specs.deep_view();
            let mut k: usize = 0;
            while k < specs.len()
                invariant
                    0 <= k <= specs@.len(),
                    self.fits(tree),
                    all == specs.deep_view(),
                    r.deep_view() == targets_upto(lang, all, entry.path@, tree, k as int),
                decreases specs@.len() - k,
            {
                let ghost before = r.deep_view();
                assert(all[k as int] == specs@[k as int]@);
                let mut more = self.targets(lang, specs[k].as_str(), entry.path.as_str(), tree);
                let ghost added = more.deep_view();
                r.append(&mut more);
                assert(r.deep_view() =~= before + added);
                k += 1;
            }
        }
        r
    }
}

/// Adds the imports of `targets` by `file` to a graph.
fn add_imports(graph: &mut ImportGraph, file: &str, targets: &Vec<String>)
    requires
        old(graph).wf(),
    ensures
        final(graph).wf(),
        final(graph)@ == with_imports(
            old(graph)@,
            file@,
            targets.deep_view(),
            targets@.len() as int,
        ),
{
    let ghost before = graph@;
    let mut k: usize = 0;
    while k < targets.len()
        invariant
            0 <= k <= targets@.len(),
            graph.wf(),
            graph@ == with_imports(before, file@, targets.deep_view(), k as int),
        decreases targets@.len() - k,
    {
        assert(targets.deep_view()[k as int] == targets@[k as int]@);
        graph.add_edge(file, targets[k].as_str());
        k += 1;
    }
}

/// Builds the import graph of a project. Returns the graph and the number of files looked at.
pub fn build_graph(tree: &ProjectTree) -> (r: (ImportGraph, usize))
    ensures
        r.0.wf(),
        r.0@ == graph_edges(tree),
        r.1 == scan(tree).len(),
{
    let extractors = Extractors::new(tree);
    let mut graph = ImportGraph::new();
    let mut scanned: usize = 0;
    let n: usize = tree.entries().len();
    let mut i: usize = 0;
    let ghost list = scanned_files(tree@, tree.root(), 0);
    while i < n && scanned < MAX_FILES
        invariant
            0 <= i <= n,
            n == tree@.entries.len(),
            extractors.fits(tree),
            graph.wf(),
            scanned == scanned_files(tree@, tree.root(), i as int).len(),
            graph@ == fresh_edges(
                tree,
                scanned_files(tree@, tree.root(), i as int),
                scanned as int,
            ),
        decreases n - i,
    {
        let ghost known = scanned_files(tree@, tree.root(), i as int);
        if let Some(lang) = extractors.language_of_entry(tree, i) {
            let targets = extractors.imported(tree, i, lang);
            add_imports(&mut graph, tree.entries()[i].path.as_str(), &targets);
            proof {
                let next = known.push(i as int);
                fresh_edges_of_prefix(tree, known, next, scanned as int);
                assert(scanned_files(tree@, tree.root(), i + 1) == next);
                assert(targets.deep_view().len() == targets@.len());
            }
            scanned = scanned + 1;
        }
        i += 1;
    }
    proof {
        scan_is_full(tree@, tree.root(), i as int, n as int);
    }
    (graph, scanned)
}

proof fn fresh_edges_of_prefix(tree: &ProjectTree, a: Seq<int>, b: Seq<int>, n: int)
    requires
        n <= a.len(),
        n <= b.len(),
        forall|k: int| 0 <= k < n ==> a[k] == b[k],
    ensures
        fresh_edges(tree, a, n) == fresh_edges(tree, b, n),
    decreases n,
{
    if n > 0 {
        fresh_edges_of_prefix(tree, a, b, n - 1);
    }
}

proof fn scan_is_full(files: Files, root: Seq<char>, i: int, n: int)
    requires
        0 <= i <= n <= files.entries.len(),
        i == n || scanned_files(files, root, i).len() >= MAX_FILES,
    ensures
        scanned_files(files, root, n) == scanned_files(files, root, i),
    decreases n - i,
{
    if i < n {
        scan_is_full(files, root, i, n - 1);
    }
}

// ---------------------------------------------------------------------------------------------
// Building with a cache
// ---------------------------------------------------------------------------------------------
/// What the cache knows of one file.
pub struct CachedFile {
    /// The key of the file: its path relative to the project root.
    pub path: String,
    /// The modification time at which the targets were extracted.
    pub mtime: i64,
    pub targets: Vec<String>,
}

/// What a build leaves behind: the graph, how much work it was, and what the cache has to change.
pub struct CachedBuild {
    pub graph: ImportGraph,
    pub scanned: usize,
    /// How many files were new or modified.
    pub re_extracted: usize,
    /// The files whose cached targets are to be replaced.
    pub writes: Vec<CachedFile>,
    /// The cached files that no longer exist.
    pub stale: Vec<String>,
}

/// The key under which the cache knows a path: forward slashes, no leading `./`.
pub open spec fn cache_key(path: Seq<char>) -> Seq<char> {
    let s = replace_char(path, '\\', '/');
    match strip_prefix(s, seq!['.', '/']) {
        Some(rest) => rest,
        None => s,
    }
}

/// The first of the first `n` cached files under `key`.
pub open spec fn cached_at(files: Seq<CachedFile>, key: Seq<char>, n: int) -> Option<int>
    decreases n,
{
    if n <= 0 {
        None
    } else {
        match cached_at(files, key, n - 1) {
            Some(c) => Some(c),
            None => if files[n - 1].path@ == key {
                Some(n - 1)
            } else {
                None
            },
        }
    }
}

/// The cached file that still describes entry `i`: it has the entry's modification time, and that
/// time is known.
pub open spec fn unchanged(files: Seq<CachedFile>, entry: TreeEntry) -> Option<int> {
    match cached_at(files, cache_key(entry.path@), files.len() as int) {
        Some(c) => if files[c].mtime == entry.mtime && entry.mtime != 0 {
            Some(c)
        } else {
            None
        },
        None => None,
    }
}

/// The targets of source file `i`: from the cache where the file is unchanged, else extracted.
pub open spec fn known_targets(tree: &ProjectTree, files: Seq<CachedFile>, i: int) -> Seq<Seq<char>> {
    match unchanged(files, tree@.entries[i]) {
        Some(c) => files[c].targets.deep_view(),
        None => imported_by(tree, i),
    }
}

/// The imports of the first `n` of the files `list`, with the help of the cache.
pub open spec fn cached_edges(
    tree: &ProjectTree,
    files: Seq<CachedFile>,
    list: Seq<int>,
    n: int,
) -> Set<Edge>
    decreases n,
{
    if n <= 0 {
        Set::empty()
    } else {
        let i = list[n - 1];
        let targets = known_targets(tree, files, i);
        with_imports(
            cached_edges(tree, files, list, n - 1),
            tree@.entries[i].path@,
            targets,
            targets.len() as int,
        )
    }
}

/// The new or modified ones among the first `n` of the files `list`.
pub open spec fn modified(
    tree: &ProjectTree,
    files: Seq<CachedFile>,
    list: Seq<int>,
    n: int,
) -> Seq<int>
    decreases n,
{
    if n <= 0 {
        Seq::empty()
    } else if unchanged(files, tree@.entries[list[n - 1]]) is None {
        modified(tree, files, list, n - 1).push(list[n - 1])
    } else {
        modified(tree, files, list, n - 1)
    }
}

/// Whether entry `i` can be cached: it was read, and its modification time is known.
pub open spec fn is_cacheable(tree: &ProjectTree, i: int) -> bool {
    tree@.entries[i].contents is Some && tree@.entries[i].mtime != 0
}

/// The cacheable ones among the first `n` of the files `list`.
pub open spec fn cacheable(tree: &ProjectTree, list: Seq<int>, n: int) -> Seq<int>
    decreases n,
{
    if n <= 0 {
        Seq::empty()
    } else if is_cacheable(tree, list[n - 1]) {
        cacheable(tree, list, n - 1).push(list[n - 1])
    } else {
        cacheable(tree, list, n - 1)
    }
}

/// `w` is what the cache is to know of entry `i`.
pub open spec fn is_write(w: CachedFile, tree: &ProjectTree, i: int) -> bool {
    &&& w.path@ == cache_key(tree@.entries[i].path@)
    &&& w.mtime == tree@.entries[i].mtime
    &&& w.targets.deep_view() == keys_of(imported_by(tree, i))
}

/// The keys of a list of paths.
pub open spec fn keys_of(paths: Seq<Seq<char>>) -> Seq<Seq<char>> {
    Seq::new(paths.len(), |k: int| cache_key(paths[k]))
}

/// The keys of the first `n` of the files `list`.
pub open spec fn scanned_keys(tree: &ProjectTree, list: Seq<int>, n: int) -> Set<Seq<char>>
    decreases n,
{
    if n <= 0 {
        Set::empty()
    } else {
        scanned_keys(tree, list, n - 1).insert(cache_key(tree@.entries[list[n - 1]].path@))
    }
}

/// The first `n` cached files whose key is not among `seen`.
pub open spec fn missing(files: Seq<CachedFile>, seen: Set<Seq<char>>, n: int) -> Seq<Seq<char>>
    decreases n,
{
    if n <= 0 {
        Seq::empty()
    } else if seen.contains(files[n - 1].path@) {
        missing(files, seen, n - 1)
    } else {
        missing(files, seen, n - 1).push(files[n - 1].path@)
    }
}

/// What a build with the cache `files` leads to.
pub open spec fn is_cached_build(r: CachedBuild, tree: &ProjectTree, files: Seq<CachedFile>) -> bool {
    let list = scan(tree);
    let changed = modified(tree, files, list, list.len() as int);
    let kept = cacheable(tree, changed, changed.len() as int);
    &&& r.graph.wf()
    &&& r.graph@ == cached_edges(tree, files, list, list.len() as int)
    &&& r.scanned == list.len()
    &&& r.re_extracted == changed.len()
    &&& r.writes@.len() == kept.len()
    &&& forall|k: int| 0 <= k < kept.len() ==> is_write(#[trigger] r.writes@[k], tree, kept[k])
    &&& r.stale.deep_view() == missing(
        files,
        scanned_keys(tree, list, list.len() as int),
        files.len() as int,
    )
}

/// One of `list` is the file `x` of the graph.
pub open spec fn names_file(list: Seq<Seq<char>>, x: Seq<char>) -> bool {
    exists|k: int| 0 <= k < list.len() && canonical(#[trigger] list[k]) == x
}

/// Two lists name the same files of the graph.
pub open spec fn same_targets(a: Seq<Seq<char>>, b: Seq<Seq<char>>) -> bool {
    forall|x: Seq<char>| #[trigger] names_file(a, x) <==> names_file(b, x)
}

/// A cache that tells the truth about the files it still describes gives the graph that a build
/// from scratch gives.
pub proof fn true_cache_gives_fresh_graph(
    tree: &ProjectTree,
    files: Seq<CachedFile>,
    list: Seq<int>,
    n: int,
)
    requires
        0 <= n <= list.len(),
        forall|a: int|
            0 <= a < n ==> same_targets(
                known_targets(tree, files, #[trigger] list[a]),
                imported_by(tree, list[a]),
            ),
    ensures
        cached_edges(tree, files, list, n) == fresh_edges(tree, list, n),
    decreases n,
{
    if n > 0 {
        true_cache_gives_fresh_graph(tree, files, list, n - 1);
        let base = fresh_edges(tree, list, n - 1);
        let i = list[n - 1];
        let path = tree@.entries[i].path@;
        let a = known_targets(tree, files, i);
        let b = imported_by(tree, i);
        assert(same_targets(a, b));
        let x = with_imports(base, path, a, a.len() as int);
        let y = with_imports(base, path, b, b.len() as int);
        assert forall|e: Edge| x.contains(e) <==> y.contains(e) by {
            with_imports_adds(base, path, a, a.len() as int, e);
            with_imports_adds(base, path, b, b.len() as int, e);
            let (from, to) = e;
            if exists|k: int| 0 <= k < a.len() && e == (canonical(path), canonical(#[trigger] a[k])) {
                let k = choose|k: int|
                    0 <= k < a.len() && e == (canonical(path), canonical(#[trigger] a[k]));
                assert(canonical(a[k]) == to);
                assert(names_file(a, to) && names_file(b, to));
                let j = choose|j: int| 0 <= j < b.len() && canonical(#[trigger] b[j]) == to;
                assert(e == (canonical(path), canonical(b[j])));
            }
            if exists|k: int| 0 <= k < b.len() && e == (canonical(path), canonical(#[trigger] b[k])) {
                let k = choose|k: int|
                    0 <= k < b.len() && e == (canonical(path), canonical(#[trigger] b[k]));
                assert(canonical(b[k]) == to);
                assert(names_file(b, to) && names_file(a, to));
                let j = choose|j: int| 0 <= j < a.len() && canonical(#[trigger] a[j]) == to;
                assert(e == (canonical(path), canonical(a[j])));
            }
        }
        assert(x =~= y);
    }
}

/// With an empty cache every file is extracted, and the graph is that of a build from scratch.
pub proof fn empty_cache_extracts_everything(tree: &ProjectTree, list: Seq<int>, n: int)
    requires
        0 <= n <= list.len(),
    ensures
        modified(tree, Seq::empty(), list, n).len() == n,
        cached_edges(tree, Seq::empty(), list, n) == fresh_edges(tree, list, n),
    decreases n,
{
    if n > 0 {
        empty_cache_extracts_everything(tree, list, n - 1);
    }
}

/// Nanoseconds since the epoch, given as whole seconds and the nanoseconds beyond; zero for times
/// before the epoch. A time too far ahead wraps around.
pub fn mtime_ns(since_epoch: Option<(u64, u32)>) -> (r: i64)
    ensures
        match since_epoch {
            Some((secs, nanos)) => r == (secs * 1_000_000_000 + nanos) as i64,
            None => r == 0,
        },
{
    match since_epoch {
        Some((secs, nanos)) => {
            let total: u128 = (secs as u128) * 1_000_000_000 + nanos as u128;
            #[verifier::truncate]
            (total as i64)
        },
        None => 0,
    }
}

/// The key under which the cache knows a path.
pub fn path_to_key(path: &str) -> (r: String)
    ensures
        r@ == cache_key(path@),
{
    let s = replace_in(&chars_of(path), '\\', '/');
    if s.len() >= 2 && s[0] == '.' && s[1] == '/' {
        assert(s@.subrange(0, 2) =~= seq!['.', '/']);
        let rest = slice_of(&s, 2, s.len());
        assert(rest@ =~= s@.skip(2));
        text_of(&rest)
    } else {
        assert(strip_prefix(s@, seq!['.', '/']) is None) by {
            if s@.len() >= 2 {
                assert(s@.subrange(0, 2)[0] == s@[0] && s@.subrange(0, 2)[1] == s@[1]);
                assert(seq!['.', '/'][0] == '.' && seq!['.', '/'][1] == '/');
            }
        }
        text_of(&s)
    }
}

/// The path that a cache key stands for.
pub fn key_to_path(key: &str) -> (r: String)
    ensures
        r@ == key@,
{
    key.to_owned()
}

/// `index` leads from each key to its first cached file.
spec fn is_key_index(index: Map<Seq<char>, usize>, files: Seq<CachedFile>, n: int) -> bool {
    forall|key: Seq<char>|
        match #[trigger] cached_at(files, key, n) {
            Some(c) => index.contains_key(key) && index[key] == c,
            None => !index.contains_key(key),
        }
}

fn index_keys(files: &Vec<CachedFile>) -> (index: StringHashMap<usize>)
    ensures
        is_key_index(index@, files@, files@.len() as int),
{
    let mut index: StringHashMap<usize> = StringHashMap::new();
    let mut n: usize = 0;
    while n < files.len()
        invariant
            0 <= n <= files@.len(),
            is_key_index(index@, files@, n as int),
        decreases files@.len() - n,
    {
        let path = &files[n].path;
        if !index.contains_key(path.as_str()) {
            index.insert(path.clone(), n);
        }
        proof {
            assert forall|p: Seq<char>|
                match #[trigger] cached_at(files@, p, n + 1) {
                    Some(i) => index@.contains_key(p) && index@[p] == i,
                    None => !index@.contains_key(p),
                } by {
                let at = cached_at(files@, p, n as int);
                assert(files@[n as int].path@ == path@);
            }
        }
        n += 1;
    }
    index
}

proof fn cached_in_range(files: Seq<CachedFile>, key: Seq<char>, n: int)
    ensures
        match cached_at(files, key, n) {
            Some(c) => 0 <= c < n && files[c].path@ == key,
            None => true,
        },
    decreases n,
{
    if n > 0 {
        cached_in_range(files, key, n - 1);
    }
}

fn keys_for(paths: &Vec<String>) -> (r: Vec<String>)
    ensures
        r.deep_view() == keys_of(paths.deep_view()),
{
    let mut r: Vec<String> = Vec::new();
    let mut k: usize = 0;
    while k < paths.len()
        invariant
            0 <= k <= paths@.len(),
            r@.len() == k,
            forall|j: int| 0 <= j < k ==> (#[trigger] r@[j])@ == cache_key(paths@[j]@),
        decreases paths@.len() - k,
    {
        r.push(path_to_key(paths[k].as_str()));
        k += 1;
    }
    assert(r.deep_view() =~= keys_of(paths.deep_view()));
    r
}

/// Builds the import graph of a project, taking the imports of unchanged files from the cache.
/// The result says what the cache has to replace and to forget.
pub fn build_graph_cached(tree: &ProjectTree, files: &Vec<CachedFile>) -> (r: CachedBuild)
    ensures
        is_cached_build(r, tree, files@),
{
    let extractors = Extractors::new(tree);
    let index = index_keys(files);
    let mut graph = ImportGraph::new();
    let mut seen = StringHashSet::new();
    let mut scanned: usize = 0;
    let mut re_extracted: usize = 0;
    let mut writes: Vec<CachedFile> = Vec::new();
    let n: usize = tree.entries().len();
    let mut i: usize = 0;
    while i < n && scanned < MAX_FILES
        invariant
            0 <= i <= n,
            n == tree@.entries.len(),
            extractors.fits(tree),
            is_key_index(index@, files@, files@.len() as int),
            graph.wf(),
            scanned <= MAX_FILES,
            re_extracted <= scanned,
            ({
                let list = scanned_files(tree@, tree.root(), i as int);
                let changed = modified(tree, files@, list, list.len() as int);
                let kept = cacheable(tree, changed, changed.len() as int);
                &&& scanned == list.len()
                &&& graph@ == cached_edges(tree, files@, list, list.len() as int)
                &&& seen@ == scanned_keys(tree, list, list.len() as int)
                &&& re_extracted == changed.len()
                &&& writes@.len() == kept.len()
                &&& forall|k: int|
                    0 <= k < kept.len() ==> is_write(#[trigger] writes@[k], tree, kept[k])
            }),
        decreases n - i,
    {
        let ghost known = scanned_files(tree@, tree.root(), i as int);
        let ghost changed = modified(tree, files@, known, known.len() as int);
        let ghost kept = cacheable(tree, changed, changed.len() as int);
        if let Some(lang) = extractors.language_of_entry(tree, i) {
            let entry = &tree.entries()[i];
            let key = path_to_key(entry.path.as_str());
            let ghost next = known.push(i as int);
            let hit: Option<usize> = match index.get(key.as_str()) {
                Some(c) => Some(*c),
                None => None,
            };
            proof {
                let at = cached_at(files@, key@, files@.len() as int);
                cached_in_range(files@, key@, files@.len() as int);
                cached_lists_of_prefix(tree, files@, known, next, known.len() as int);
                assert(scanned_files(tree@, tree.root(), i + 1) == next);
                assert(next.last() == i);
            }
            let current: Option<usize> = match hit {
                Some(c) => if files[c].mtime == entry.mtime && entry.mtime != 0 {
                    Some(c)
                } else {
                    None
                },
                None => None,
            };
            match current {
                Some(c) => {
                    assert(unchanged(files@, tree@.entries[i as int]) == Some(c as int));
                    add_imports(&mut graph, entry.path.as_str(), &files[c].targets);
                    assert(files@[c as int].targets.deep_view().len()
                        == files@[c as int].targets@.len());
                    assert(modified(tree, files@, next, next.len() as int) == changed);
                },
                None => {
                    assert(unchanged(files@, tree@.entries[i as int]) is None);
                    let targets = extractors.imported(tree, i, lang);
                    add_imports(&mut graph, entry.path.as_str(), &targets);
                    assert(targets.deep_view().len() == targets@.len());
                    re_extracted = re_extracted + 1;
                    let ghost more = changed.push(i as int);
                    proof {
                        assert(modified(tree, files@, next, next.len() as int) == more);
                        cacheable_of_prefix(tree, changed, more, changed.len() as int);
                    }
                    if entry.contents.is_some() && entry.mtime != 0 {
                        let w = CachedFile {
                            path: key.clone(),
                            mtime: entry.mtime,
                            targets: keys_for(&targets),
                        };
                        writes.push(w);
                        proof {
                            assert(is_cacheable(tree, i as int));
                            assert(cacheable(tree, more, more.len() as int) == kept.push(i as int));
                            assert(is_write(w, tree, i as int));
                        }
                    } else {
                        assert(!is_cacheable(tree, i as int));
                        assert(cacheable(tree, more, more.len() as int) == kept);
                    }
                },
            }
            seen.insert(key);
            scanned = scanned + 1;
        }
        i += 1;
    }
    proof {
        scan_is_full(tree@, tree.root(), i as int, n as int);
    }
    let mut stale: Vec<String> = Vec::new();
    let mut k: usize = 0;
    assert(stale.deep_view() =~= missing(files@, seen@, 0));
    while k < files.len()
        invariant
            0 <= k <= files@.len(),
            stale.deep_view() == missing(files@, seen@, k as int),
        decreases files@.len() - k,
    {
        let ghost before = stale.deep_view();
        if !seen.contains(files[k].path.as_str()) {
            stale.push(files[k].path.clone());
            assert(stale.deep_view() =~= before.push(files@[k as int].path@));
        }
        k += 1;
    }
    CachedBuild { graph, scanned, re_extracted, writes, stale }
}

proof fn cached_lists_of_prefix(
    tree: &ProjectTree,
    files: Seq<CachedFile>,
    a: Seq<int>,
    b: Seq<int>,
    n: int,
)
    requires
        n <= a.len(),
        n <= b.len(),
        forall|k: int| 0 <= k < n ==> a[k] == b[k],
    ensures
        cached_edges(tree, files, a, n) == cached_edges(tree, files, b, n),
        modified(tree, files, a, n) == modified(tree, files, b, n),
        scanned_keys(tree, a, n) == scanned_keys(tree, b, n),
    decreases n,
{
    if n > 0 {
        cached_lists_of_prefix(tree, files, a, b, n - 1);
    }
}

proof fn cacheable_of_prefix(tree: &ProjectTree, a: Seq<int>, b: Seq<int>, n: int)
    requires
        n <= a.len(),
        n <= b.len(),
        forall|k: int| 0 <= k < n ==> a[k] == b[k],
    ensures
        cacheable(tree, a, n) == cacheable(tree, b, n),
    decreases n,
{
    if n > 0 {
        cacheable_of_prefix(tree, a, b, n - 1);
    }
}

} // verus!
