//! TypeScript and JavaScript.
use vstd::prelude::*;
use vstd::utf8::encode_utf8;

use crate::imports::{
    at_most_one, list_of, pick_groups, picks, strip_comments, uncommented, ImportExtractor,
};
use crate::paths::{
    components, components_of, file_name, first_parts, is_dot_dot, joined_parts, parent,
    parent_parts, parts_of, stem, stem_of, with_part,
};
use crate::pattern::{find_all, is_read, matches_of};
use crate::text::{
    chars_of, extend_chars, has_prefix, opt_text, rows, starts_with, text_of, trim_start_by,
    trim_start_char,
};
use crate::tree::{dir_of, file_of, Files, ProjectTree};

verus! {

/// The static import forms: `import ... from`, `export ... from`, bare `import`, `import(...)` and
/// `require(...)`.
pub const TYPESCRIPT_IMPORT: &'static str =
    r#"\b(?:import|export)\b[^'"`;]*?\bfrom\s*['"`]([^'"`]+)['"`]|\bimport\s*['"`]([^'"`]+)['"`]|\bimport\s*\(\s*['"`]([^'"`]+)['"`]\s*\)|\brequire\s*\(\s*['"`]([^'"`]+)['"`]\s*\)"#;

/// The extensions of the language, in the order in which an import without one is tried.
pub open spec fn typescript_extensions() -> Seq<Seq<char>> {
    seq!["ts"@, "tsx"@, "js"@, "jsx"@, "mjs"@, "cjs"@, "mts"@, "cts"@]
}

fn extension_list() -> (r: Vec<&'static str>)
    ensures
        r.deep_view() == typescript_extensions(),
        r@.len() == 8,
{
    let r = vec!["ts", "tsx", "js", "jsx", "mjs", "cjs", "mts", "cts"];
    assert(r.deep_view() =~= typescript_extensions());
    r
}

/// The specifiers that `source` imports.
pub open spec fn typescript_imports(source: Seq<char>) -> Seq<Seq<char>> {
    picks(matches_of(TYPESCRIPT_IMPORT@, uncommented(encode_utf8(source), 0)), 4)
}

/// A path with the extension of its last component replaced by, or completed with, `ext`.
pub open spec fn with_extension(parts: Seq<Seq<char>>, ext: Seq<char>) -> Seq<Seq<char>> {
    match file_name(parts) {
        Some(name) => parts.drop_last().push(stem(name) + seq!['.'] + ext),
        None => parts,
    }
}

/// The first file that `raw` leads to with one of the extensions from number `k` on.
pub open spec fn with_some_extension(
    files: Files,
    raw: Seq<Seq<char>>,
    k: int,
) -> Option<Seq<char>>
    decreases typescript_extensions().len() - k,
{
    if k < 0 || k >= typescript_extensions().len() {
        None
    } else {
        match file_of(files, with_extension(raw, typescript_extensions()[k])) {
            Some(path) => Some(path),
            None => with_some_extension(files, raw, k + 1),
        }
    }
}

/// The first index file of the directory `raw` with one of the extensions from number `k` on.
pub open spec fn some_index_file(
    files: Files,
    raw: Seq<Seq<char>>,
    k: int,
) -> Option<Seq<char>>
    decreases typescript_extensions().len() - k,
{
    if k < 0 || k >= typescript_extensions().len() {
        None
    } else {
        match file_of(files, raw.push("index."@ + typescript_extensions()[k])) {
            Some(path) => Some(path),
            None => some_index_file(files, raw, k + 1),
        }
    }
}

/// The file that the path `raw` of an import, from the root of the file system, stands for: itself, itself with an extension, or the
/// index file of a directory.
pub open spec fn typescript_file(files: Files, raw: Seq<Seq<char>>) -> Option<
    Seq<char>,
> {
    match file_of(files, raw) {
        Some(path) => Some(path),
        None => match with_some_extension(files, raw, 0) {
            Some(path) => Some(path),
            None => if dir_of(files, raw) {
                some_index_file(files, raw, 0)
            } else {
                None
            },
        },
    }
}

/// The file that `specifier` leads to from `file`. Only specifiers that start with `./`, `../` or
/// `/` stay within the project.
pub open spec fn typescript_target(
    files: Files,
    specifier: Seq<char>,
    file: Seq<char>,
) -> Option<Seq<char>> {
    let below = components(trim_start_by(specifier, |c: char| c == '/'));
    if starts_with(specifier, "/"@) {
        typescript_file(files, files.home + below)
    } else if starts_with(specifier, "./"@) || starts_with(specifier, "../"@) {
        typescript_file(files, files.home + parent(components(file)) + below)
    } else {
        None
    }
}

/// Extractor for TypeScript and JavaScript.
pub struct TypeScriptExtractor;

impl TypeScriptExtractor {
    pub fn new() -> (r: TypeScriptExtractor) {
        TypeScriptExtractor
    }
}

impl ImportExtractor for TypeScriptExtractor {
    open spec fn imports(&self, source: Seq<char>) -> Seq<Seq<char>> {
        typescript_imports(source)
    }

    open spec fn target(
        &self,
        specifier: Seq<char>,
        file: Seq<char>,
        tree: &ProjectTree,
    ) -> Option<Seq<char>> {
        typescript_target(tree@, specifier, file)
    }

    open spec fn targets(
        &self,
        specifier: Seq<char>,
        file: Seq<char>,
        tree: &ProjectTree,
    ) -> Seq<Seq<char>> {
        at_most_one(self.target(specifier, file, tree))
    }

    open spec fn fits(&self, tree: &ProjectTree) -> bool {
        true
    }

    fn extensions(&self) -> (r: Vec<&'static str>)
        ensures
            r.deep_view() == typescript_extensions(),
    {
        extension_list()
    }

    fn extract_imports(&self, source: &str) -> (r: Vec<String>)
        ensures
            is_read(TYPESCRIPT_IMPORT@, uncommented(encode_utf8(source@), 0)),
            r.deep_view() == typescript_imports(source@),
    {
        let cleaned = text_of(&strip_comments(source));
        match find_all(TYPESCRIPT_IMPORT, cleaned.as_str()) {
            Some(found) => pick_groups(&found, 4),
            None => {
                let r: Vec<String> = Vec::new();
                assert(r.deep_view() =~= Seq::<Seq<char>>::empty());
                r
            },
        }
    }

    fn resolve(&self, specifier: &str, importing_file: &str, tree: &ProjectTree) -> (r: Option<
        String,
    >) {
        let from_root = has_prefix(specifier, "/");
        if !from_root && !has_prefix(specifier, "./") && !has_prefix(specifier, "../") {
            return None;
        }
        let below = components_of(&trim_start_char(&chars_of(specifier), '/'));
        if from_root {
            return try_resolve_path(&tree.from_home(&below), tree);
        }
        let dir = tree.from_home(&parent_parts(&parts_of(importing_file)));
        try_resolve_path(&joined_parts(&dir, &below), tree)
    }

    fn resolve_many(&self, specifier: &str, importing_file: &str, tree: &ProjectTree) -> (r: Vec<
        String,
    >) {
        list_of(self.resolve(specifier, importing_file, tree))
    }
}

fn set_extension(parts: &Vec<Vec<char>>, ext: &str) -> (r: Vec<Vec<char>>)
    ensures
        rows(r@) == with_extension(rows(parts@), ext@),
{
    let n: usize = parts.len();
    if n == 0 || is_dot_dot(&parts[n - 1]) {
        assert(n > 0 ==> rows(parts@).last() == parts@[n - 1]@);
        assert(rows(parts@).take(n as int) =~= rows(parts@));
        return first_parts(parts, n);
    }
    assert(rows(parts@).last() == parts@[n - 1]@);
    let mut name = stem_of(&parts[n - 1]);
    let ghost base = name@;
    name.push('.');
    extend_chars(&mut name, &chars_of(ext));
    assert(name@ =~= base + seq!['.'] + ext@);
    with_part(&parent_parts(parts), &name)
}

/// The file that the path of an import stands for.
fn try_resolve_path(raw: &Vec<Vec<char>>, tree: &ProjectTree) -> (r: Option<String>)
    ensures
        opt_text(r) == typescript_file(tree@, rows(raw@)),
{
    if let Some(path) = tree.file_of(raw) {
        return Some(path);
    }
    let exts = extension_list();
    let mut k: usize = 0;
    while k < exts.len()
        invariant
            0 <= k <= exts@.len() == 8,
            exts.deep_view() == typescript_extensions(),
            file_of(tree@, rows(raw@)) is None,
            with_some_extension(tree@, rows(raw@), 0) == with_some_extension(
                tree@,
                rows(raw@),
                k as int,
            ),
        decreases exts@.len() - k,
    {
        assert(exts.deep_view()[k as int] == exts@[k as int]@);
        if let Some(path) = tree.file_of(&set_extension(raw, exts[k])) {
            return Some(path);
        }
        k += 1;
    }
    if !tree.dir_of(raw) {
        return None;
    }
    k = 0;
    while k < exts.len()
        invariant
            0 <= k <= exts@.len() == 8,
            exts.deep_view() == typescript_extensions(),
            file_of(tree@, rows(raw@)) is None,
            with_some_extension(tree@, rows(raw@), 0) is None,
            dir_of(tree@, rows(raw@)),
            some_index_file(tree@, rows(raw@), 0) == some_index_file(
                tree@,
                rows(raw@),
                k as int,
            ),
        decreases exts@.len() - k,
    {
        assert(exts.deep_view()[k as int] == exts@[k as int]@);
        let mut name = chars_of("index.");
        extend_chars(&mut name, &chars_of(exts[k]));
        if let Some(path) = tree.file_of(&with_part(raw, &name)) {
            return Some(path);
        }
        k += 1;
    }
    None
}

} // verus!
