//! Go.
//!
//! An import names a package, that is a directory: it leads to every source file in there.
use vstd::prelude::*;
use vstd::utf8::encode_utf8;

use crate::imports::{pick_groups, picks, strip_comments, uncommented, ImportExtractor};
use crate::paths::{
    components, components_of, joined_parts, parent, parent_parts, parts_of, same_parts,
};
use crate::pattern::{find_all, is_read, matches_of};
use crate::text::{
    after_prefix, chars_at, chars_of, copy_chars, ends_with, find_char, has_suffix, index_of,
    lines, lines_of, occurs_at, opt_text, rows, same_chars, slice_of, spells, strip_prefix,
    text_of, trim, trim_chars, trim_start_by, trim_start_char,
};
use crate::tree::{
    dir_of, is_passed_over, located, name_in, passes_over, place, shelf, Files, ProjectTree,
    TreeEntry,
};

verus! {

/// One import within an import declaration: an optional name, then the quoted path.
pub const GO_IMPORT: &'static str =
    r#"(?m)(?:^[ \t]*import[ \t]+(?:[A-Za-z_][A-Za-z0-9_]*[ \t]+|\. |_ )?"([^"]+)"|^[ \t]*(?:[A-Za-z_][A-Za-z0-9_]*[ \t]+|\. |_ )?"([^"]+)")"#;

// ---------------------------------------------------------------------------------------------
// Extraction
// ---------------------------------------------------------------------------------------------
/// The first position at or after `i` that holds neither a space nor a tab.
pub open spec fn after_blanks(c: Seq<char>, i: int) -> int
    decreases c.len() - i,
{
    if i < c.len() && (c[i] == ' ' || c[i] == '\t') {
        after_blanks(c, i + 1)
    } else {
        i
    }
}

/// Whether the word `import` stands at `i`, at the start of a line.
pub open spec fn import_at(c: Seq<char>, i: int) -> bool {
    (i == 0 || c[i - 1] == '\n') && occurs_at(c, "import"@, i)
}

/// The import declarations in `c` from position `i` on: of a block, the text from its opening up
/// to its closing parenthesis; of a single import, the text from its quote to the end of the line,
/// or of the text where no line follows.
pub open spec fn go_sections(c: Seq<char>, i: int) -> Seq<Seq<char>>
    decreases c.len() - i,
    via go_sections_advance
{
    if i < 0 || i >= c.len() {
        Seq::empty()
    } else if import_at(c, i) {
        let k = after_blanks(c, i + 6);
        if k < c.len() && c[k] == '(' {
            match index_of(c, ')', k) {
                Some(e) => seq![c.subrange(k, e)] + go_sections(c, e + 1),
                None => go_sections(c, i + 1),
            }
        } else if k < c.len() && c[k] == '"' {
            match index_of(c, '\n', k) {
                Some(e) => seq![c.subrange(k, e)] + go_sections(c, i + 1),
                None => seq![c.subrange(k, c.len() as int)] + go_sections(c, i + 1),
            }
        } else {
            go_sections(c, i + 1)
        }
    } else {
        go_sections(c, i + 1)
    }
}

#[via_fn]
proof fn go_sections_advance(c: Seq<char>, i: int) {
    if 0 <= i < c.len() {
        after_blanks_forward(c, i + 6);
        index_of_forward(c, ')', after_blanks(c, i + 6));
    }
}

proof fn after_blanks_forward(c: Seq<char>, i: int)
    ensures
        i <= after_blanks(c, i),
        i <= c.len() ==> after_blanks(c, i) <= c.len(),
    decreases c.len() - i,
{
    if i < c.len() && (c[i] == ' ' || c[i] == '\t') {
        after_blanks_forward(c, i + 1);
    }
}

proof fn index_of_forward(c: Seq<char>, x: char, i: int)
    ensures
        match index_of(c, x, i) {
            Some(e) => i <= e < c.len(),
            None => true,
        },
    decreases c.len() - i,
{
    if 0 <= i < c.len() && c[i] != x {
        index_of_forward(c, x, i + 1);
    }
}

/// The imports of the first `n` sections.
pub open spec fn section_imports(sections: Seq<Seq<char>>, n: int) -> Seq<Seq<char>>
    decreases n,
{
    if n <= 0 {
        Seq::empty()
    } else {
        section_imports(sections, n - 1) + picks(matches_of(GO_IMPORT@, sections[n - 1]), 2)
    }
}

/// The packages that `source` imports.
pub open spec fn go_imports(source: Seq<char>) -> Seq<Seq<char>> {
    let sections = go_sections(uncommented(encode_utf8(source), 0), 0);
    section_imports(sections, sections.len() as int)
}

/// The import declarations of a source file, without comments.
pub fn extract_import_sections(source: &str) -> (r: Vec<Vec<char>>)
    ensures
        rows(r@) == go_sections(uncommented(encode_utf8(source@), 0), 0),
{
    let c = strip_comments(source);
    let word = chars_of("import");
    proof {
        reveal_strlit("import");
    }
    let mut r: Vec<Vec<char>> = Vec::new();
    let mut i: usize = 0;
    let n: usize = c.len();
    assert(rows(r@) + go_sections(c@, 0) =~= go_sections(c@, 0));
    while i < n
        invariant
            0 <= i <= n,
            n == c@.len(),
            word@ == "import"@,
            word@.len() == 6,
            rows(r@) + go_sections(c@, i as int) == go_sections(c@, 0),
        decreases n - i,
    {
        let ghost before = rows(r@);
        if (i == 0 || c[i - 1] == '\n') && chars_at(&c, &word, i) {
            let mut k: usize = i + 6;
            while k < n && (c[k] == ' ' || c[k] == '\t')
                invariant
                    i + 6 <= k <= n,
                    n == c@.len(),
                    after_blanks(c@, i + 6) == after_blanks(c@, k as int),
                decreases n - k,
            {
                k += 1;
            }
            if k < n && c[k] == '(' {
                if let Some(e) = find_char(&c, ')', k) {
                    let section = slice_of(&c, k, e);
                    let ghost text = section@;
                    r.push(section);
                    proof {
                        assert(rows(r@) =~= before.push(text));
                        let rest = go_sections(c@, e + 1);
                        assert(before + (seq![text] + rest) =~= before.push(text) + rest);
                    }
                    i = e + 1;
                    continue ;
                }
            } else if k < n && c[k] == '"' {
                let e: usize = match find_char(&c, '\n', k) {
                    Some(e) => e,
                    None => n,
                };
                let section = slice_of(&c, k, e);
                let ghost text = section@;
                r.push(section);
                proof {
                    assert(rows(r@) =~= before.push(text));
                    let rest = go_sections(c@, i + 1);
                    assert(before + (seq![text] + rest) =~= before.push(text) + rest);
                }
            }
        }
        i += 1;
    }
    assert(rows(r@) =~= go_sections(c@, 0));
    r
}

// ---------------------------------------------------------------------------------------------
// Modules of the project
// ---------------------------------------------------------------------------------------------
/// The module path that the lines of a `go.mod` from `i` on declare.
pub open spec fn module_from(text: Seq<Seq<char>>, i: int) -> Option<Seq<char>>
    decreases text.len() - i,
{
    if i < 0 || i >= text.len() {
        None
    } else {
        match strip_prefix(trim(text[i]), "module "@) {
            Some(rest) => Some(trim(rest)),
            None => module_from(text, i + 1),
        }
    }
}

/// The module path that a `go.mod` declares.
pub open spec fn path_in_go_mod(go_mod: Seq<char>) -> Option<Seq<char>> {
    module_from(lines(go_mod), 0)
}

/// The module path that a `go.mod` declares.
pub fn parse_module_path(go_mod: &str) -> (r: Option<String>)
    ensures
        opt_text(r) == path_in_go_mod(go_mod@),
{
    let text = lines_of(go_mod);
    let mut i: usize = 0;
    while i < text.len()
        invariant
            0 <= i <= text@.len(),
            rows(text@) == lines(go_mod@),
            path_in_go_mod(go_mod@) == module_from(lines(go_mod@), i as int),
        decreases text@.len() - i,
    {
        assert(lines(go_mod@)[i as int] == text@[i as int]@);
        let line = text_of(&trim_chars(&text[i]));
        if let Some(rest) = after_prefix(line.as_str(), "module ") {
            return Some(text_of(&trim_chars(&chars_of(rest.as_str()))));
        }
        i += 1;
    }
    None
}

/// Directories in which no module is looked for.
pub open spec fn go_skip() -> Seq<Seq<char>> {
    seq![
        "node_modules"@,
        "target"@,
        ".git"@,
        ".gaffer"@,
        "dist"@,
        "vendor"@,
        "worktrees"@,
        ".worktrees"@,
    ]
}

/// The module that entry `i` declares: a `go.mod` at most eight levels below the root.
pub open spec fn declared_module(files: Files, root: Seq<char>, i: int) -> Option<
    Seq<char>,
> {
    let parts = components(files.entries[i].path@);
    if !files.entries[i].is_dir && 0 < parts.len() <= 8 && parts.last() == "go.mod"@ && !is_passed_over(
        parts,
        root,
        go_skip(),
    ) && files.entries[i].contents is Some {
        path_in_go_mod(files.entries[i].contents->0@)
    } else {
        None
    }
}

/// The modules that the first `n` entries declare: each path with its entry.
pub open spec fn modules(files: Files, root: Seq<char>, n: int) -> Seq<(Seq<char>, int)>
    decreases n,
{
    if n <= 0 {
        Seq::empty()
    } else {
        match declared_module(files, root, n - 1) {
            Some(path) => modules(files, root, n - 1).push((path, n - 1)),
            None => modules(files, root, n - 1),
        }
    }
}

/// What a list of modules holds.
pub open spec fn modules_view(list: Seq<(Vec<char>, usize)>) -> Seq<(Seq<char>, int)> {
    Seq::new(list.len(), |k: int| (list[k].0@, list[k].1 as int))
}

/// Whether the package `specifier` belongs to the module `path`.
pub open spec fn belongs_to(specifier: Seq<char>, path: Seq<char>) -> bool {
    path.len() > 0 && (specifier == path || occurs_at(specifier, path.push('/'), 0))
}

/// The module among the first `n` that the package `specifier` belongs to: the longest path, and
/// of equal ones the last.
pub open spec fn best_module(list: Seq<(Seq<char>, int)>, specifier: Seq<char>, n: int) -> Option<
    (Seq<char>, int),
>
    decreases n,
{
    if n <= 0 {
        None
    } else {
        let best = best_module(list, specifier, n - 1);
        let (path, _) = list[n - 1];
        let longest = match best {
            Some((known, _)) => known.len() <= path.len(),
            None => true,
        };
        if belongs_to(specifier, path) && longest {
            Some(list[n - 1])
        } else {
            best
        }
    }
}

/// The module that entry `i` declares.
fn module_of_entry(tree: &ProjectTree, i: usize) -> (r: Option<String>)
    requires
        i < tree@.entries.len(),
    ensures
        opt_text(r) == declared_module(tree@, tree.root(), i as int),
{
    let entry = &tree.entries()[i];
    if entry.is_dir {
        return None;
    }
    let parts = parts_of(entry.path.as_str());
    if parts.len() == 0 || parts.len() > 8 || !spells(&parts[parts.len() - 1], "go.mod") {
        return None;
    }
    let skip = vec![
        "node_modules",
        "target",
        ".git",
        ".gaffer",
        "dist",
        "vendor",
        "worktrees",
        ".worktrees",
    ];
    assert(skip.deep_view() =~= go_skip());
    if passes_over(&parts, tree.root_name(), &skip) {
        return None;
    }
    match &entry.contents {
        Some(text) => parse_module_path(text.as_str()),
        None => None,
    }
}

/// The modules of the project.
pub fn build_module_index(tree: &ProjectTree) -> (list: Vec<(Vec<char>, usize)>)
    ensures
        modules_view(list@) == modules(tree@, tree.root(), tree@.entries.len() as int),
{
    let mut list: Vec<(Vec<char>, usize)> = Vec::new();
    let n: usize = tree.entries().len();
    let mut i: usize = 0;
    assert(modules_view(list@) =~= modules(tree@, tree.root(), 0));
    while i < n
        invariant
            0 <= i <= n,
            n == tree@.entries.len(),
            modules_view(list@) == modules(tree@, tree.root(), i as int),
        decreases n - i,
    {
        let ghost before = modules_view(list@);
        if let Some(path) = module_of_entry(tree, i) {
            list.push((chars_of(path.as_str()), i));
            assert(modules_view(list@) =~= before.push((path@, i as int)));
        }
        i += 1;
    }
    list
}

// ---------------------------------------------------------------------------------------------
// Resolution
// ---------------------------------------------------------------------------------------------
/// Whether an entry is a source file, other than a test, in the directory `dir`.
pub open spec fn is_package_file(entry: TreeEntry, dir: Seq<Seq<char>>) -> bool {
    let parts = components(entry.path@);
    &&& !entry.is_dir
    &&& parts.len() > 0
    &&& parent(parts) == dir
    &&& ends_with(parts.last(), ".go"@)
    &&& !ends_with(parts.last(), "_test.go"@)
}

/// The source files, other than tests, in the directory at the place `at` among the first `n`
/// entries.
pub open spec fn package_files(files: Files, at: Seq<Seq<char>>, n: int) -> Seq<Seq<char>>
    decreases n,
{
    if n <= 0 {
        Seq::empty()
    } else {
        let entry = shelf(files, at)[n - 1];
        if is_package_file(entry, place(files, at)) {
            package_files(files, at, n - 1).push(
                name_in(files, at, components(entry.path@).last()),
            )
        } else {
            package_files(files, at, n - 1)
        }
    }
}

/// The source files of the package that `specifier` names.
pub open spec fn go_targets(files: Files, root: Seq<char>, specifier: Seq<char>) -> Seq<
    Seq<char>,
> {
    let list = modules(files, root, files.entries.len() as int);
    match best_module(list, specifier, list.len() as int) {
        Some((path, i)) => {
            let below = components(trim_start_by(specifier.skip(path.len() as int), |c: char| c == '/'));
            let dir = files.home + parent(components(files.entries[i].path@)) + below;
            if dir_of(files, dir) {
                let at = located(files, dir)->0;
                package_files(files, at, shelf(files, at).len() as int)
            } else {
                Seq::empty()
            }
        },
        None => Seq::empty(),
    }
}

fn find_module(list: &Vec<(Vec<char>, usize)>, specifier: &Vec<char>) -> (r: Option<usize>)
    ensures
        match r {
            Some(k) => k < list@.len() && belongs_to(specifier@, list@[k as int].0@) && best_module(
                modules_view(list@),
                specifier@,
                list@.len() as int,
            ) == Some(modules_view(list@)[k as int]),
            None => best_module(modules_view(list@), specifier@, list@.len() as int) is None,
        },
{
    let ghost all = modules_view(list@);
    let mut best: Option<usize> = None;
    let mut k: usize = 0;
    while k < list.len()
        invariant
            0 <= k <= list@.len(),
            all == modules_view(list@),
            match best {
                Some(b) => b < k && belongs_to(specifier@, list@[b as int].0@) && best_module(
                    all,
                    specifier@,
                    k as int,
                ) == Some(all[b as int]),
                None => best_module(all, specifier@, k as int) is None,
            },
        decreases list@.len() - k,
    {
        let path = &list[k].0;
        let mut prefix = copy_chars(path);
        prefix.push('/');
        assert(all[k as int].0 == path@);
        if path.len() > 0 && (same_chars(specifier, path) || chars_at(specifier, &prefix, 0)) {
            match best {
                Some(b) => {
                    if list[b].0.len() <= path.len() {
                        best = Some(k);
                    }
                },
                None => {
                    best = Some(k);
                },
            }
        }
        k += 1;
    }
    best
}

fn list_package_files(tree: &ProjectTree, at: &Vec<Vec<char>>) -> (r: Vec<String>)
    ensures
        r.deep_view() == package_files(tree@, rows(at@), shelf(tree@, rows(at@)).len() as int),
{
    let mut r: Vec<String> = Vec::new();
    let entries = tree.shelf_of(at);
    let dir = tree.place_of(at);
    let mut i: usize = 0;
    assert(r.deep_view() =~= Seq::<Seq<char>>::empty());
    while i < entries.len()
        invariant
            0 <= i <= entries@.len(),
            entries@ == shelf(tree@, rows(at@)),
            rows(dir@) == place(tree@, rows(at@)),
            r.deep_view() == package_files(tree@, rows(at@), i as int),
        decreases entries@.len() - i,
    {
        let ghost before = r.deep_view();
        let entry = &entries[i];
        if !entry.is_dir {
            let parts = parts_of(entry.path.as_str());
            if parts.len() > 0 && same_parts(&parent_parts(&parts), &dir) {
                let last = &parts[parts.len() - 1];
                assert(rows(parts@).last() == last@);
                let name = text_of(last);
                if has_suffix(name.as_str(), ".go") && !has_suffix(name.as_str(), "_test.go") {
                    let path = tree.path_in(at, last);
                    let ghost text = path@;
                    r.push(path);
                    assert(r.deep_view() =~= before.push(text));
                }
            }
        }
        i += 1;
    }
    r
}

/// Extractor for Go. It remembers the modules of the project once it has been prepared.
pub struct GoExtractor {
    module_index: Option<Vec<(Vec<char>, usize)>>,
}

impl GoExtractor {
    /// An extractor that knows no project yet.
    pub fn new() -> (r: GoExtractor)
        ensures
            forall|tree: &ProjectTree| #[trigger] r.fits(tree),
    {
        GoExtractor { module_index: None }
    }

    /// What the extractor remembers is true of `tree`.
    pub closed spec fn remembers(&self, tree: &ProjectTree) -> bool {
        match self.module_index {
            Some(list) => modules_view(list@) == modules(tree@, tree.root(), tree@.entries.len() as int),
            None => true,
        }
    }

    /// Learns the modules of the project.
    pub fn prepare(&mut self, tree: &ProjectTree)
        ensures
            final(self).fits(tree),
    {
        self.module_index = Some(build_module_index(tree));
    }
}

/// The source files of the package that `specifier` names, given the modules of the project.
fn files_of_package(specifier: &str, list: &Vec<(Vec<char>, usize)>, tree: &ProjectTree) -> (r: Vec<
    String,
>)
    requires
        modules_view(list@) == modules(tree@, tree.root(), tree@.entries.len() as int),
    ensures
        r.deep_view() == go_targets(tree@, tree.root(), specifier@),
{
    let spec_chars = chars_of(specifier);
    if let Some(k) = find_module(list, &spec_chars) {
        proof {
            modules_in_range(tree@, tree.root(), tree@.entries.len() as int);
            assert(modules_view(list@)[k as int].1 == list@[k as int].1);
            let path = list@[k as int].0@;
            if specifier@ != path {
                assert(path.push('/').len() == path.len() + 1);
            }
        }
        let size: usize = list[k].0.len();
        let sub = slice_of(&spec_chars, size, spec_chars.len());
        assert(sub@ =~= specifier@.skip(size as int));
        let home = tree.from_home(&parent_parts(&parts_of(tree.entries()[list[k].1].path.as_str())));
        let dir = joined_parts(&home, &components_of(&trim_start_char(&sub, '/')));
        if let Some(at) = tree.locate(&dir) {
            if tree.is_dir_at(&at) {
                return list_package_files(tree, &at);
            }
        }
    }
    let r: Vec<String> = Vec::new();
    assert(r.deep_view() =~= Seq::<Seq<char>>::empty());
    r
}

proof fn modules_in_range(files: Files, root: Seq<char>, n: int)
    ensures
        forall|k: int|
            0 <= k < modules(files, root, n).len() ==> 0 <= (#[trigger] modules(
                files,
                root,
                n,
            )[k]).1 < n,
    decreases n,
{
    if n > 0 {
        modules_in_range(files, root, n - 1);
        let known = modules(files, root, n - 1);
        let all = modules(files, root, n);
        assert forall|k: int| 0 <= k < all.len() implies 0 <= (#[trigger] all[k]).1 < n by {
            if k < known.len() {
                assert(all[k] == known[k]);
            }
        }
    }
}

impl ImportExtractor for GoExtractor {
    open spec fn imports(&self, source: Seq<char>) -> Seq<Seq<char>> {
        go_imports(source)
    }

    open spec fn target(
        &self,
        specifier: Seq<char>,
        file: Seq<char>,
        tree: &ProjectTree,
    ) -> Option<Seq<char>> {
        None
    }

    open spec fn targets(
        &self,
        specifier: Seq<char>,
        file: Seq<char>,
        tree: &ProjectTree,
    ) -> Seq<Seq<char>> {
        go_targets(tree@, tree.root(), specifier)
    }

    open spec fn fits(&self, tree: &ProjectTree) -> bool {
        self.remembers(tree)
    }

    fn extensions(&self) -> (r: Vec<&'static str>)
        ensures
            r.deep_view() == seq!["go"@],
    {
        let r = vec!["go"];
        assert(r.deep_view() =~= seq!["go"@]);
        r
    }

    fn extract_imports(&self, source: &str) -> (r: Vec<String>)
        ensures
            ({
                let sections = go_sections(uncommented(encode_utf8(source@), 0), 0);
                forall|k: int|
                    0 <= k < sections.len() ==> is_read(GO_IMPORT@, #[trigger] sections[k])
            }),
            r.deep_view() == go_imports(source@),
    {
        let sections = extract_import_sections(source);
        let ghost all = rows(sections@);
        let mut r: Vec<String> = Vec::new();
        let mut i: usize = 0;
        assert(r.deep_view() =~= Seq::<Seq<char>>::empty());
        while i < sections.len()
            invariant
                0 <= i <= sections@.len(),
                all == rows(sections@),
                r.deep_view() == section_imports(all, i as int),
                forall|k: int| 0 <= k < i ==> is_read(GO_IMPORT@, #[trigger] all[k]),
            decreases sections@.len() - i,
        {
            let ghost before = r.deep_view();
            let text = text_of(&sections[i]);
            assert(text@ == all[i as int]);
            match find_all(GO_IMPORT, text.as_str()) {
                Some(found) => {
                    let mut more = pick_groups(&found, 2);
                    let ghost added = more.deep_view();
                    r.append(&mut more);
                    assert(r.deep_view() =~= before + added);
                },
                None => {
                    assert(r.deep_view() =~= before + Seq::<Seq<char>>::empty());
                },
            }
            i += 1;
        }
        r
    }

    fn resolve(&self, specifier: &str, importing_file: &str, tree: &ProjectTree) -> (r: Option<
        String,
    >) {
        None
    }

    fn resolve_many(&self, specifier: &str, importing_file: &str, tree: &ProjectTree) -> (r: Vec<
        String,
    >) {
        match &self.module_index {
            Some(list) => files_of_package(specifier, list, tree),
            None => files_of_package(specifier, &build_module_index(tree), tree),
        }
    }
}

} // verus!
