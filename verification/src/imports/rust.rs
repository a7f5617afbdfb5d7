//! Rust.
//!
//! `mod foo;` leads to the file of the module, `use some_crate::...` to the entry file of a crate
//! of the same project.
use vstd::hash_map::StringHashMap;
use vstd::prelude::*;
use vstd::utf8::encode_utf8;

use crate::imports::{
    at_most_one, list_of, pick_groups, picks, strip_comments, uncommented, ImportExtractor,
};
use crate::paths::{
    components, file_name, is_dot_dot, parent, parent_parts, parts_of, stem, stem_of, with_part,
};
use crate::pattern::{find_all, is_read, matches_of};
use crate::text::{
    after_prefix, chars_of, concat2, extend_chars, has_prefix, is_listed, is_space, lines, lines_of,
    listed, opt_text, replace_char, replace_in, rows, spells, starts_with, strip_prefix, text_of,
    trim, trim_by, trim_char, trim_chars, trim_start_by, trim_start_chars,
};
use crate::tree::{file_for, is_passed_over, leads_to_dir, passes_over, Files, ProjectTree};

verus! {

/// A module declaration that ends in a semicolon.
pub const RUST_MOD: &'static str =
    r"(?m)^\s*(?:pub(?:\([^)]+\))?\s+)?mod\s+([A-Za-z_][A-Za-z0-9_]*)\s*;";

/// The first segment of a `use` declaration.
pub const RUST_USE: &'static str = r"(?m)^\s*(?:pub(?:\([^)]+\))?\s+)?use\s+([A-Za-z_][A-Za-z0-9_]*)";

/// The attribute of an inline test module.
pub const RUST_INLINE_TESTS: &'static str = r"(?m)^\s*#\[cfg\(test\)\]";

// ---------------------------------------------------------------------------------------------
// Extraction
// ---------------------------------------------------------------------------------------------
/// Path heads that stay within the crate or the standard library.
pub open spec fn local_heads() -> Seq<Seq<char>> {
    seq!["crate"@, "self"@, "super"@, "std"@, "core"@, "alloc"@]
}

/// `prefix` before each of `names`.
pub open spec fn marked(names: Seq<Seq<char>>, prefix: Seq<char>) -> Seq<Seq<char>> {
    Seq::new(names.len(), |i: int| prefix + names[i])
}

/// The first `n` heads without the local ones.
pub open spec fn foreign_heads(heads: Seq<Seq<char>>, n: int) -> Seq<Seq<char>>
    decreases n,
{
    if n <= 0 {
        Seq::empty()
    } else if listed(local_heads(), heads[n - 1]) {
        foreign_heads(heads, n - 1)
    } else {
        foreign_heads(heads, n - 1).push(heads[n - 1])
    }
}

/// The specifiers of declared modules and used path heads: `mod:` before each module, `use:`
/// before each head that may name another crate.
pub open spec fn rust_specifiers(mods: Seq<Seq<char>>, heads: Seq<Seq<char>>) -> Seq<Seq<char>> {
    marked(mods, "mod:"@) + marked(foreign_heads(heads, heads.len() as int), "use:"@)
}

/// The specifiers that `source` imports.
pub open spec fn rust_imports(source: Seq<char>) -> Seq<Seq<char>> {
    let cleaned = uncommented(encode_utf8(source), 0);
    rust_specifiers(picks(matches_of(RUST_MOD@, cleaned), 1), picks(matches_of(RUST_USE@, cleaned), 1))
}

/// Whether `source` holds an inline test module.
pub open spec fn shows_inline_tests(source: Seq<char>) -> bool {
    match matches_of(RUST_INLINE_TESTS@, source) {
        Some(found) => found.len() > 0,
        None => false,
    }
}

/// Whether a Rust source file holds an inline `#[cfg(test)]` module, and so tests itself.
pub fn has_inline_tests(source: &str) -> (r: bool)
    ensures
        r == shows_inline_tests(source@),
        is_read(RUST_INLINE_TESTS@, source@),
{
    match find_all(RUST_INLINE_TESTS, source) {
        Some(found) => found.len() > 0,
        None => false,
    }
}

/// The specifiers of declared modules and used path heads.
pub fn specifiers_of(mods: &Vec<String>, heads: &Vec<String>) -> (r: Vec<String>)
    ensures
        r.deep_view() == rust_specifiers(mods.deep_view(), heads.deep_view()),
{
    let local = vec!["crate", "self", "super", "std", "core", "alloc"];
    assert(local.deep_view() =~= local_heads());
    let mut r: Vec<String> = Vec::new();
    let mut i: usize = 0;
    assert(r.deep_view() =~= marked(mods.deep_view(), "mod:"@).take(0));
    while i < mods.len()
        invariant
            0 <= i <= mods@.len(),
            r.deep_view() == marked(mods.deep_view(), "mod:"@).take(i as int),
        decreases mods@.len() - i,
    {
        let ghost before = r.deep_view();
        r.push(concat2("mod:", mods[i].as_str()));
        assert(r.deep_view() =~= before.push("mod:"@ + mods@[i as int]@));
        i += 1;
        assert(r.deep_view() =~= marked(mods.deep_view(), "mod:"@).take(i as int));
    }
    let ghost first = marked(mods.deep_view(), "mod:"@);
    let ghost hs = heads.deep_view();
    assert(r.deep_view() =~= first + marked(foreign_heads(hs, 0), "use:"@));
    i = 0;
    while i < heads.len()
        invariant
            0 <= i <= heads@.len(),
            hs == heads.deep_view(),
            local.deep_view() == local_heads(),
            r.deep_view() == first + marked(foreign_heads(hs, i as int), "use:"@),
        decreases heads@.len() - i,
    {
        let ghost before = r.deep_view();
        assert(hs[i as int] == heads@[i as int]@);
        if !is_listed(&local, heads[i].as_str()) {
            r.push(concat2("use:", heads[i].as_str()));
            proof {
                let head = "use:"@ + heads@[i as int]@;
                assert(r.deep_view() =~= before.push(head));
                assert(marked(foreign_heads(hs, i + 1), "use:"@) =~= marked(
                    foreign_heads(hs, i as int),
                    "use:"@,
                ).push(head));
                assert(before.push(head) =~= first + marked(
                    foreign_heads(hs, i as int),
                    "use:"@,
                ).push(head));
            }
        }
        i += 1;
    }
    r
}

fn first_groups(pattern: &str, text: &str) -> (r: Vec<String>)
    ensures
        r.deep_view() == picks(matches_of(pattern@, text@), 1),
        is_read(pattern@, text@),
{
    match find_all(pattern, text) {
        Some(found) => pick_groups(&found, 1),
        None => {
            let r: Vec<String> = Vec::new();
            assert(r.deep_view() =~= Seq::<Seq<char>>::empty());
            r
        },
    }
}

// ---------------------------------------------------------------------------------------------
// Crates of the project
// ---------------------------------------------------------------------------------------------
/// The value of a `name = "..."` line after the word `name`: quotes and white space removed.
/// `None` where no `=` follows.
pub open spec fn name_value(rest: Seq<char>) -> Option<Seq<char>> {
    let value = trim_start_by(rest, |c: char| is_space(c));
    match strip_prefix(value, "="@) {
        Some(text) => Some(
            trim_by(trim_by(trim(text), |c: char| c == '"'), |c: char| c == '\''),
        ),
        None => None,
    }
}

/// The package name that the lines from `i` on give, where `in_package` says whether line `i`
/// belongs to the `[package]` section. A line that starts with `name` but has no `=` ends the
/// search.
pub open spec fn name_from(text: Seq<Seq<char>>, i: int, in_package: bool) -> Option<Seq<char>>
    decreases text.len() - i,
{
    if i < 0 || i >= text.len() {
        None
    } else {
        let line = trim(text[i]);
        if starts_with(line, "["@) {
            name_from(text, i + 1, line == "[package]"@)
        } else if !in_package {
            name_from(text, i + 1, false)
        } else {
            match strip_prefix(line, "name"@) {
                Some(rest) => match name_value(rest) {
                    Some(value) => if value.len() > 0 {
                        Some(value)
                    } else {
                        name_from(text, i + 1, true)
                    },
                    None => None,
                },
                None => name_from(text, i + 1, true),
            }
        }
    }
}

/// The package name in a `Cargo.toml`.
pub open spec fn crate_name(toml: Seq<char>) -> Option<Seq<char>> {
    name_from(lines(toml), 0, false)
}

/// The name in the `[package]` section of a `Cargo.toml`.
pub fn parse_crate_name(toml: &str) -> (r: Option<String>)
    ensures
        opt_text(r) == crate_name(toml@),
{
    let text = lines_of(toml);
    let ghost all = lines(toml@);
    let mut in_package = false;
    let mut i: usize = 0;
    while i < text.len()
        invariant
            0 <= i <= text@.len(),
            all == lines(toml@),
            rows(text@) == all,
            crate_name(toml@) == name_from(all, i as int, in_package),
        decreases text@.len() - i,
    {
        assert(all[i as int] == text@[i as int]@);
        let line = trim_chars(&text[i]);
        let line_text = text_of(&line);
        if has_prefix(line_text.as_str(), "[") {
            in_package = spells(&line, "[package]");
        } else if in_package {
            if let Some(rest) = after_prefix(line_text.as_str(), "name") {
                let value = trim_start_chars(&chars_of(rest.as_str()));
                match after_prefix(text_of(&value).as_str(), "=") {
                    Some(text) => {
                        let bare = trim_char(
                            &trim_char(&trim_chars(&chars_of(text.as_str())), '"'),
                            '\'',
                        );
                        if bare.len() > 0 {
                            return Some(text_of(&bare));
                        }
                    },
                    None => {
                        return None;
                    },
                }
            }
        }
        i += 1;
    }
    None
}

/// Directories in which no manifest is looked for.
pub open spec fn rust_skip() -> Seq<Seq<char>> {
    seq![
        "node_modules"@,
        "target"@,
        ".git"@,
        ".gaffer"@,
        "dist"@,
        ".venv"@,
        "venv"@,
        "vendor"@,
        "worktrees"@,
        ".worktrees"@,
    ]
}

/// Entry `i` is the manifest of a crate with the import name `name` and a `src` directory. It
/// stands at most eight levels below the root.
pub open spec fn declares_crate(
    files: Files,
    root: Seq<char>,
    i: int,
    name: Seq<char>,
) -> bool {
    let parts = components(files.entries[i].path@);
    &&& !files.entries[i].is_dir
    &&& 0 < parts.len() <= 8
    &&& parts.last() == "Cargo.toml"@
    &&& !is_passed_over(parts, root, rust_skip())
    &&& files.entries[i].contents is Some
    &&& crate_name(files.entries[i].contents->0@) is Some
    &&& name == replace_char(crate_name(files.entries[i].contents->0@)->0, '-', '_')
    &&& leads_to_dir(files, parent(parts).push("src"@))
}

/// The last of the first `n` entries that declares the crate `name`.
pub open spec fn crate_entry(
    files: Files,
    root: Seq<char>,
    name: Seq<char>,
    n: int,
) -> Option<int>
    decreases n,
{
    if n <= 0 {
        None
    } else if declares_crate(files, root, n - 1, name) {
        Some(n - 1)
    } else {
        crate_entry(files, root, name, n - 1)
    }
}

/// `index` maps each crate of the project to its manifest.
pub open spec fn is_crate_index(index: Map<Seq<char>, usize>, tree: &ProjectTree, n: int) -> bool {
    forall|name: Seq<char>|
        match #[trigger] crate_entry(tree@, tree.root(), name, n) {
            Some(i) => index.contains_key(name) && index[name] == i,
            None => !index.contains_key(name),
        }
}

/// The import name of the crate that entry `i` declares.
fn declared_crate(tree: &ProjectTree, i: usize) -> (r: Option<String>)
    requires
        i < tree@.entries.len(),
    ensures
        match r {
            Some(name) => declares_crate(tree@, tree.root(), i as int, name@),
            None => forall|name: Seq<char>|
                !(#[trigger] declares_crate(tree@, tree.root(), i as int, name)),
        },
{
    let entry = &tree.entries()[i];
    if entry.is_dir {
        return None;
    }
    let parts = parts_of(entry.path.as_str());
    if parts.len() == 0 || parts.len() > 8 || !spells(&parts[parts.len() - 1], "Cargo.toml") {
        return None;
    }
    let skip = vec![
        "node_modules",
        "target",
        ".git",
        ".gaffer",
        "dist",
        ".venv",
        "venv",
        "vendor",
        "worktrees",
        ".worktrees",
    ];
    assert(skip.deep_view() =~= rust_skip());
    if passes_over(&parts, tree.root_name(), &skip) {
        return None;
    }
    match &entry.contents {
        Some(text) => match parse_crate_name(text.as_str()) {
            Some(name) => {
                if tree.has_dir(&with_part(&parent_parts(&parts), &chars_of("src"))) {
                    Some(text_of(&replace_in(&chars_of(name.as_str()), '-', '_')))
                } else {
                    None
                }
            },
            None => None,
        },
        None => None,
    }
}

/// Maps each crate of the project to its manifest.
pub fn build_crate_index(tree: &ProjectTree) -> (index: StringHashMap<usize>)
    ensures
        is_crate_index(index@, tree, tree@.entries.len() as int),
{
    let mut index: StringHashMap<usize> = StringHashMap::new();
    let n: usize = tree.entries().len();
    let mut i: usize = 0;
    while i < n
        invariant
            0 <= i <= n,
            n == tree@.entries.len(),
            is_crate_index(index@, tree, i as int),
        decreases n - i,
    {
        let ghost before = index@;
        let declared = declared_crate(tree, i);
        if let Some(name) = declared {
            index.insert(name.clone(), i);
        }
        proof {
            assert forall|name: Seq<char>|
                match #[trigger] crate_entry(tree@, tree.root(), name, i + 1) {
                    Some(k) => index@.contains_key(name) && index@[name] == k,
                    None => !index@.contains_key(name),
                } by {
                let known = crate_entry(tree@, tree.root(), name, i as int);
                if declares_crate(tree@, tree.root(), i as int, name) {
                    assert(declared is Some && declared->0@ == name);
                }
            }
        }
        i += 1;
    }
    index
}

// ---------------------------------------------------------------------------------------------
// Resolution
// ---------------------------------------------------------------------------------------------
/// The file of the module `name` declared in `file`: a sibling where the file is a crate or
/// directory root, else in the directory named after the file.
pub open spec fn mod_target(files: Files, name: Seq<char>, file: Seq<char>) -> Option<
    Seq<char>,
> {
    let parts = components(file);
    let own = match file_name(parts) {
        Some(f) => stem(f),
        None => Seq::empty(),
    };
    let dir = if own == "lib"@ || own == "main"@ || own == "mod"@ {
        parent(parts)
    } else if own.len() == 0 {
        parent(parts)
    } else {
        parent(parts).push(own)
    };
    match file_for(files, dir.push(name + ".rs"@)) {
        Some(path) => Some(path),
        None => file_for(files, dir.push(name).push("mod.rs"@)),
    }
}

/// The entry file of the crate `name`: its `lib.rs`, else its `main.rs`.
pub open spec fn crate_target(files: Files, root: Seq<char>, name: Seq<char>) -> Option<
    Seq<char>,
> {
    match crate_entry(files, root, name, files.entries.len() as int) {
        Some(i) => {
            let src = parent(components(files.entries[i].path@)).push("src"@);
            match file_for(files, src.push("lib.rs"@)) {
                Some(path) => Some(path),
                None => file_for(files, src.push("main.rs"@)),
            }
        },
        None => None,
    }
}

/// The file that `specifier` leads to from `file`.
pub open spec fn rust_target(
    files: Files,
    root: Seq<char>,
    specifier: Seq<char>,
    file: Seq<char>,
) -> Option<Seq<char>> {
    match strip_prefix(specifier, "mod:"@) {
        Some(name) => mod_target(files, name, file),
        None => match strip_prefix(specifier, "use:"@) {
            Some(name) => crate_target(files, root, name),
            None => None,
        },
    }
}

/// The file of the module `name` declared in `importing_file`.
fn resolve_mod(name: &str, importing_file: &str, tree: &ProjectTree) -> (r: Option<String>)
    ensures
        opt_text(r) == mod_target(tree@, name@, importing_file@),
{
    let parts = parts_of(importing_file);
    let n: usize = parts.len();
    let mut own: Vec<char> = Vec::new();
    assert(own@ =~= Seq::<char>::empty());
    if n > 0 {
        assert(rows(parts@).last() == parts@[n - 1]@);
        if !is_dot_dot(&parts[n - 1]) {
            own = stem_of(&parts[n - 1]);
        }
    }
    let above = parent_parts(&parts);
    let dir = if own.len() == 0 || spells(&own, "lib") || spells(&own, "main") || spells(
        &own,
        "mod",
    ) {
        above
    } else {
        with_part(&above, &own)
    };
    let mut direct = chars_of(name);
    extend_chars(&mut direct, &chars_of(".rs"));
    if let Some(path) = tree.file(&with_part(&dir, &direct)) {
        return Some(path);
    }
    tree.file(&with_part(&with_part(&dir, &chars_of(name)), &chars_of("mod.rs")))
}

/// The entry file of a crate of the project.
fn resolve_workspace_crate(
    name: &str,
    index: &StringHashMap<usize>,
    tree: &ProjectTree,
) -> (r: Option<String>)
    requires
        is_crate_index(index@, tree, tree@.entries.len() as int),
    ensures
        opt_text(r) == crate_target(tree@, tree.root(), name@),
{
    let ghost known = crate_entry(tree@, tree.root(), name@, tree@.entries.len() as int);
    proof {
        crate_entry_in_range(tree@, tree.root(), name@, tree@.entries.len() as int);
    }
    match index.get(name) {
        Some(i) => {
            let manifest = parts_of(tree.entries()[*i].path.as_str());
            let src = with_part(&parent_parts(&manifest), &chars_of("src"));
            if let Some(path) = tree.file(&with_part(&src, &chars_of("lib.rs"))) {
                return Some(path);
            }
            tree.file(&with_part(&src, &chars_of("main.rs")))
        },
        None => None,
    }
}

proof fn crate_entry_in_range(files: Files, root: Seq<char>, name: Seq<char>, n: int)
    ensures
        match crate_entry(files, root, name, n) {
            Some(i) => 0 <= i < n,
            None => true,
        },
    decreases n,
{
    if n > 0 {
        crate_entry_in_range(files, root, name, n - 1);
    }
}

/// Extractor for Rust. It remembers the crates of the project once it has been prepared.
pub struct RustExtractor {
    crate_index: Option<StringHashMap<usize>>,
}

impl RustExtractor {
    /// An extractor that knows no project yet.
    pub fn new() -> (r: RustExtractor)
        ensures
            forall|tree: &ProjectTree| #[trigger] r.fits(tree),
    {
        RustExtractor { crate_index: None }
    }

    /// What the extractor remembers is true of `tree`.
    pub closed spec fn remembers(&self, tree: &ProjectTree) -> bool {
        match self.crate_index {
            Some(index) => is_crate_index(index@, tree, tree@.entries.len() as int),
            None => true,
        }
    }

    /// Learns the crates of the project.
    pub fn prepare(&mut self, tree: &ProjectTree)
        ensures
            final(self).fits(tree),
    {
        self.crate_index = Some(build_crate_index(tree));
    }
}

impl ImportExtractor for RustExtractor {
    open spec fn imports(&self, source: Seq<char>) -> Seq<Seq<char>> {
        rust_imports(source)
    }

    open spec fn target(
        &self,
        specifier: Seq<char>,
        file: Seq<char>,
        tree: &ProjectTree,
    ) -> Option<Seq<char>> {
        rust_target(tree@, tree.root(), specifier, file)
    }

    open spec fn targets(
        &self,
        specifier: Seq<char>,
        file: Seq<char>,
        tree: &ProjectTree,
    ) -> Seq<Seq<char>> {
        at_most_one(self.target(specifier, file, tree))
    }

    open spec fn fits(&self, tree: &ProjectTree) -> bool {
        self.remembers(tree)
    }

    fn extensions(&self) -> (r: Vec<&'static str>)
        ensures
            r.deep_view() == seq!["rs"@],
    {
        let r = vec!["rs"];
        assert(r.deep_view() =~= seq!["rs"@]);
        r
    }

    fn extract_imports(&self, source: &str) -> (r: Vec<String>)
        ensures
            is_read(RUST_MOD@, uncommented(encode_utf8(source@), 0)),
            is_read(RUST_USE@, uncommented(encode_utf8(source@), 0)),
            r.deep_view() == rust_imports(source@),
    {
        let cleaned = text_of(&strip_comments(source));
        let mods = first_groups(RUST_MOD, cleaned.as_str());
        let heads = first_groups(RUST_USE, cleaned.as_str());
        specifiers_of(&mods, &heads)
    }

    fn resolve(&self, specifier: &str, importing_file: &str, tree: &ProjectTree) -> (r: Option<
        String,
    >) {
        if let Some(name) = after_prefix(specifier, "mod:") {
            return resolve_mod(name.as_str(), importing_file, tree);
        }
        if let Some(name) = after_prefix(specifier, "use:") {
            return match &self.crate_index {
                Some(index) => resolve_workspace_crate(name.as_str(), index, tree),
                None => resolve_workspace_crate(name.as_str(), &build_crate_index(tree), tree),
            };
        }
        None
    }

    fn resolve_many(&self, specifier: &str, importing_file: &str, tree: &ProjectTree) -> (r: Vec<
        String,
    >) {
        list_of(self.resolve(specifier, importing_file, tree))
    }
}

} // verus!
