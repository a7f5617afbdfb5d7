//! Python.
//!
//! A relative import starts from the importing file's package, an absolute one from the packages
//! and modules that the project holds.
use vstd::hash_map::StringHashMap;
use vstd::prelude::*;
use vstd::string::*;
use vstd::utf8::encode_utf8;

use crate::imports::{at_most_one, list_of, ImportExtractor};
use crate::paths::{
    components, extension, extension_of, first_parts, join_rows, joined_parts, parent, parent_parts,
    parts_of, same_parts, stem, stem_of, with_part,
};
use crate::pattern::{find_all, groups_view, is_read, matches_of, matches_view};
use crate::text::{
    after_prefix, chars_of, concat2, concat3, copy_chars, decimal, decimal_of, extend_chars,
    find_char, index_of, join, lines, lines_of, number_of, opt_text, parse_number, rows, slice_of,
    spells, split_chars, split_on, strip_prefix, text_of,
};
use crate::tree::{file_for, file_of, is_passed_over, passes_over, Files, ProjectTree};

verus! {

/// `from <dots><module> import`, `from <module> import` and `import <module>`.
pub const PYTHON_IMPORT: &'static str =
    r"(?m)^[ \t]*(?:from\s+(\.+)([\w.]*)\s+import|from\s+([\w.]+)\s+import|import\s+([\w.]+))";

// ---------------------------------------------------------------------------------------------
// Extraction
// ---------------------------------------------------------------------------------------------
/// A line up to its first `#`.
pub open spec fn before_hash(line: Seq<char>) -> Seq<char> {
    match index_of(line, '#', 0) {
        Some(i) => line.take(i),
        None => line,
    }
}

/// The first `n` lines without comments, each ended by a line feed.
pub open spec fn without_hashes(text: Seq<Seq<char>>, n: int) -> Seq<char>
    decreases n,
{
    if n <= 0 {
        Seq::empty()
    } else {
        (without_hashes(text, n - 1) + before_hash(text[n - 1])).push('\n')
    }
}

/// Python source without comments.
pub open spec fn python_uncommented(source: Seq<char>) -> Seq<char> {
    without_hashes(lines(source), lines(source).len() as int)
}

/// Whether group `k` took part in a match.
pub open spec fn has_group(groups: Seq<Option<Seq<char>>>, k: int) -> bool {
    k < groups.len() && groups[k] is Some
}

/// The specifier of one match: `rel:<levels up>:<name>` or `abs:<name>`.
pub open spec fn python_specifier(groups: Seq<Option<Seq<char>>>) -> Option<Seq<char>> {
    if has_group(groups, 1) {
        let dots = encode_utf8(groups[1]->0).len();
        let levels = if dots > 0 {
            (dots - 1) as nat
        } else {
            0nat
        };
        let name = if has_group(groups, 2) {
            groups[2]->0
        } else {
            Seq::empty()
        };
        Some("rel:"@ + decimal(levels) + ":"@ + name)
    } else if has_group(groups, 3) {
        Some("abs:"@ + groups[3]->0)
    } else if has_group(groups, 4) {
        Some("abs:"@ + groups[4]->0)
    } else {
        None
    }
}

/// The specifiers of the first `n` matches.
pub open spec fn python_specifiers(found: Seq<Seq<Option<Seq<char>>>>, n: int) -> Seq<Seq<char>>
    decreases n,
{
    if n <= 0 {
        Seq::empty()
    } else {
        match python_specifier(found[n - 1]) {
            Some(s) => python_specifiers(found, n - 1).push(s),
            None => python_specifiers(found, n - 1),
        }
    }
}

/// The specifiers that `source` imports.
pub open spec fn python_imports(source: Seq<char>) -> Seq<Seq<char>> {
    match matches_of(PYTHON_IMPORT@, python_uncommented(source)) {
        Some(found) => python_specifiers(found, found.len() as int),
        None => Seq::empty(),
    }
}

/// Removes `# ...` comments. String literals are not recognized.
pub fn strip_python_comments(source: &str) -> (r: Vec<char>)
    ensures
        r@ == python_uncommented(source@),
{
    let text = lines_of(source);
    let ghost all = lines(source@);
    let mut r: Vec<char> = Vec::new();
    let mut i: usize = 0;
    assert(r@ =~= without_hashes(all, 0));
    while i < text.len()
        invariant
            0 <= i <= text@.len(),
            all == lines(source@),
            rows(text@) == all,
            r@ == without_hashes(all, i as int),
        decreases text@.len() - i,
    {
        assert(all[i as int] == text@[i as int]@);
        match find_char(&text[i], '#', 0) {
            Some(k) => {
                let head = slice_of(&text[i], 0, k);
                assert(head@ =~= all[i as int].take(k as int));
                extend_chars(&mut r, &head);
            },
            None => {
                extend_chars(&mut r, &text[i]);
            },
        }
        r.push('\n');
        i += 1;
    }
    r
}

fn group_text(groups: &Vec<Option<String>>, k: usize) -> (r: Option<String>)
    ensures
        has_group(groups_view(groups@), k as int) ==> r is Some && r->0@ == groups_view(
            groups@,
        )[k as int]->0,
        !has_group(groups_view(groups@), k as int) ==> r is None,
{
    if k < groups.len() {
        match &groups[k] {
            Some(text) => Some(text.clone()),
            None => None,
        }
    } else {
        None
    }
}

fn specifier_of(groups: &Vec<Option<String>>) -> (r: Option<String>)
    ensures
        opt_text(r) == python_specifier(groups_view(groups@)),
{
    if let Some(dots) = group_text(groups, 1) {
        let size: usize = dots.as_str().as_bytes().len();
        let levels: usize = if size > 0 {
            size - 1
        } else {
            0
        };
        let name = match group_text(groups, 2) {
            Some(name) => name,
            None => {
                let empty = String::new();
                assert(empty@ =~= Seq::<char>::empty());
                empty
            },
        };
        let head = concat3("rel:", decimal_of(levels as u64).as_str(), ":");
        return Some(concat2(head.as_str(), name.as_str()));
    }
    if let Some(name) = group_text(groups, 3) {
        return Some(concat2("abs:", name.as_str()));
    }
    if let Some(name) = group_text(groups, 4) {
        return Some(concat2("abs:", name.as_str()));
    }
    None
}

/// The specifiers that the matches of the import expression stand for.
pub fn specifiers_of(found: &Vec<Vec<Option<String>>>) -> (r: Vec<String>)
    ensures
        r.deep_view() == python_specifiers(matches_view(found@), found@.len() as int),
{
    let ghost all = matches_view(found@);
    let mut r: Vec<String> = Vec::new();
    let mut i: usize = 0;
    assert(r.deep_view() =~= Seq::<Seq<char>>::empty());
    while i < found.len()
        invariant
            0 <= i <= found@.len(),
            all == matches_view(found@),
            r.deep_view() == python_specifiers(all, i as int),
        decreases found@.len() - i,
    {
        let ghost before = r.deep_view();
        assert(all[i as int] == groups_view(found@[i as int]@));
        if let Some(s) = specifier_of(&found[i]) {
            let ghost text = s@;
            r.push(s);
            assert(r.deep_view() =~= before.push(text));
        }
        i += 1;
    }
    r
}

// ---------------------------------------------------------------------------------------------
// Packages and modules of the project
// ---------------------------------------------------------------------------------------------
/// Directories in which no package is looked for.
pub open spec fn python_skip() -> Seq<Seq<char>> {
    seq![
        "node_modules"@,
        "target"@,
        ".git"@,
        ".gaffer"@,
        "dist"@,
        ".venv"@,
        "venv"@,
        "vendor"@,
        "__pycache__"@,
        "worktrees"@,
        ".worktrees"@,
    ]
}

/// The last components of `dir` that form a chain of packages: `dir` itself, where `own` says so,
/// and then each directory above that holds an `__init__.py`.
pub open spec fn package_chain(files: Files, dir: Seq<Seq<char>>, own: bool) -> Seq<
    Seq<char>,
>
    decreases dir.len(),
{
    if dir.len() == 0 || (!own && file_for(files, dir.push("__init__.py"@)) is None) {
        Seq::empty()
    } else {
        package_chain(files, dir.drop_last(), false).push(dir.last())
    }
}

/// The dotted name of the package in `dir`.
pub open spec fn package_name(files: Files, dir: Seq<Seq<char>>) -> Seq<char> {
    join(package_chain(files, dir, true), seq!['.'])
}

/// Entry `i` is the `__init__.py` of a package below the root.
pub open spec fn is_init(files: Files, root: Seq<char>, i: int) -> bool {
    let parts = components(files.entries[i].path@);
    &&& !files.entries[i].is_dir
    &&& parts.len() > 1
    &&& parts.last() == "__init__.py"@
    &&& !is_passed_over(parts, root, python_skip())
}

/// How deep entry `i` stands.
pub open spec fn depth(files: Files, i: int) -> nat {
    components(files.entries[i].path@).len()
}

/// The packages among the first `n` entries: dotted name to `__init__.py`. Of several packages of
/// one name the closest to the root counts, and of equally close ones the first.
pub open spec fn packages(files: Files, root: Seq<char>, n: int) -> Map<Seq<char>, int>
    decreases n,
{
    if n <= 0 {
        Map::empty()
    } else {
        let known = packages(files, root, n - 1);
        let name = package_name(files, parent(components(files.entries[n - 1].path@)));
        if is_init(files, root, n - 1) && (!known.contains_key(name) || depth(files, n - 1)
            < depth(files, known[name])) {
            known.insert(name, n - 1)
        } else {
            known
        }
    }
}

/// Whether a file name is that of a module, which `__init__.py` is not.
pub open spec fn is_module_name(name: Seq<char>) -> bool {
    extension(name) == Some("py"@) && stem(name) != "__init__"@
}

/// The qualified name of the module in entry `j`, where it stands in one of the packages `pk`.
pub open spec fn qualified(files: Files, pk: Map<Seq<char>, int>, j: int) -> Option<
    Seq<char>,
> {
    let parts = components(files.entries[j].path@);
    let name = package_name(files, parent(parts));
    if !files.entries[j].is_dir && parts.len() > 1 && is_module_name(parts.last()) && pk.contains_key(name)
        && parent(components(files.entries[pk[name]].path@)) == parent(parts) {
        Some(name + seq!['.'] + stem(parts.last()))
    } else {
        None
    }
}

/// `pk` with the modules in its packages among the first `n` entries. A package counts before a
/// module of the same name, an earlier module before a later one.
pub open spec fn with_modules(
    files: Files,
    pk: Map<Seq<char>, int>,
    n: int,
) -> Map<Seq<char>, int>
    decreases n,
{
    if n <= 0 {
        pk
    } else {
        let known = with_modules(files, pk, n - 1);
        match qualified(files, pk, n - 1) {
            Some(name) => if known.contains_key(name) {
                known
            } else {
                known.insert(name, n - 1)
            },
            None => known,
        }
    }
}

/// The name of the module in entry `j`, where it stands directly in the root.
pub open spec fn root_module(files: Files, root: Seq<char>, j: int) -> Option<Seq<char>> {
    let parts = components(files.entries[j].path@);
    if !files.entries[j].is_dir && parts.len() == 1 && is_module_name(parts.last()) && !is_passed_over(
        parts,
        root,
        python_skip(),
    ) {
        Some(stem(parts.last()))
    } else {
        None
    }
}

/// `base` with the modules that stand directly in the root among the first `n` entries.
pub open spec fn with_root_modules(
    files: Files,
    root: Seq<char>,
    base: Map<Seq<char>, int>,
    n: int,
) -> Map<Seq<char>, int>
    decreases n,
{
    if n <= 0 {
        base
    } else {
        let known = with_root_modules(files, root, base, n - 1);
        match root_module(files, root, n - 1) {
            Some(name) => if known.contains_key(name) {
                known
            } else {
                known.insert(name, n - 1)
            },
            None => known,
        }
    }
}

/// What can be imported by an absolute name: packages, then modules in them, then modules in the
/// root.
pub open spec fn importable(files: Files, root: Seq<char>) -> Map<Seq<char>, int> {
    let n = files.entries.len() as int;
    with_root_modules(files, root, with_modules(files, packages(files, root, n), n), n)
}

/// `index` holds what `model` does.
pub open spec fn agrees(index: Map<Seq<char>, usize>, model: Map<Seq<char>, int>) -> bool {
    forall|name: Seq<char>| #[trigger]
        index.contains_key(name) == model.contains_key(name) && (index.contains_key(name)
            ==> index[name] == model[name])
}

fn skip_list() -> (r: Vec<&'static str>)
    ensures
        r.deep_view() == python_skip(),
{
    let r = vec![
        "node_modules",
        "target",
        ".git",
        ".gaffer",
        "dist",
        ".venv",
        "venv",
        "vendor",
        "__pycache__",
        "worktrees",
        ".worktrees",
    ];
    assert(r.deep_view() =~= python_skip());
    r
}

/// The dotted name of the package in `dir`.
fn name_package(tree: &ProjectTree, dir: &Vec<Vec<char>>) -> (r: Vec<char>)
    ensures
        r@ == package_name(tree@, rows(dir@)),
{
    let n: usize = dir.len();
    let ghost all = rows(dir@);
    let mut k: usize = n;
    if n > 0 {
        k = n - 1;
        assert(all.drop_last() =~= all.take(k as int));
        assert(package_chain(tree@, all.take(k as int), false).push(all.last()) =~= package_chain(
            tree@,
            all.take(k as int),
            false,
        ) + all.subrange(k as int, n as int));
        while k > 0 && tree.file(&with_part(&first_parts(dir, k), &chars_of("__init__.py"))).is_some()
            invariant
                0 <= k < n,
                n == dir@.len(),
                all == rows(dir@),
                package_chain(tree@, all, true) == package_chain(tree@, all.take(k as int), false)
                    + all.subrange(k as int, n as int),
            ensures
                package_chain(tree@, all, true) == all.subrange(k as int, n as int),
                0 <= k < n,
            decreases k,
        {
            proof {
                let d = all.take(k as int);
                assert(d.drop_last() =~= all.take(k - 1));
                assert(d.last() == all[k - 1]);
                let up = package_chain(tree@, all.take(k - 1), false);
                assert(up.push(all[k - 1]) + all.subrange(k as int, n as int) =~= up
                    + all.subrange(k - 1, n as int));
            }
            k -= 1;
            proof {
                if k == 0 || file_for(
                    tree@,
                    all.take(k as int).push("__init__.py"@),
                ) is None {
                    assert(Seq::<Seq<char>>::empty() + all.subrange(k as int, n as int)
                        =~= all.subrange(k as int, n as int));
                }
            }
        }
    }
    let mut chain: Vec<Vec<char>> = Vec::new();
    let mut i: usize = k;
    assert(rows(chain@) =~= all.subrange(k as int, k as int));
    while i < n
        invariant
            k <= i <= n,
            n == dir@.len(),
            all == rows(dir@),
            rows(chain@) == all.subrange(k as int, i as int),
        decreases n - i,
    {
        let ghost before = rows(chain@);
        chain.push(copy_chars(&dir[i]));
        assert(rows(chain@) =~= before.push(all[i as int]));
        i += 1;
        assert(rows(chain@) =~= all.subrange(k as int, i as int));
    }
    assert(n == 0 ==> rows(chain@) =~= package_chain(tree@, all, true));
    join_rows(&chain, '.')
}

fn module_name(name: &Vec<char>) -> (r: bool)
    ensures
        r == is_module_name(name@),
{
    match extension_of(name) {
        Some(e) => spells(&e, "py") && !spells(&stem_of(name), "__init__"),
        None => false,
    }
}

fn find_packages(tree: &ProjectTree) -> (index: StringHashMap<usize>)
    ensures
        agrees(index@, packages(tree@, tree.root(), tree@.entries.len() as int)),
{
    let skip = skip_list();
    let mut index: StringHashMap<usize> = StringHashMap::new();
    let entries = tree.entries();
    let mut i: usize = 0;
    while i < entries.len()
        invariant
            0 <= i <= entries@.len(),
            entries@ == tree@.entries,
            skip.deep_view() == python_skip(),
            agrees(index@, packages(tree@, tree.root(), i as int)),
        decreases entries@.len() - i,
    {
        let ghost model = packages(tree@, tree.root(), i as int);
        proof {
            packages_in_range(tree@, tree.root(), i as int);
        }
        let entry = &entries[i];
        if !entry.is_dir {
            let parts = parts_of(entry.path.as_str());
            let n: usize = parts.len();
            assert(n > 0 ==> rows(parts@).last() == parts@[n - 1]@);
            if n > 1 && spells(&parts[n - 1], "__init__.py") && !passes_over(
                &parts,
                tree.root_name(),
                &skip,
            ) {
                let name = text_of(&name_package(tree, &parent_parts(&parts)));
                let closer = match index.get(name.as_str()) {
                    Some(k) => n < parts_of(entries[*k].path.as_str()).len(),
                    None => true,
                };
                if closer {
                    index.insert(name, i);
                }
            }
        }
        i += 1;
    }
    index
}

proof fn packages_in_range(files: Files, root: Seq<char>, n: int)
    ensures
        forall|name: Seq<char>| #[trigger]
            packages(files, root, n).contains_key(name) ==> 0 <= packages(files, root, n)[name]
                < n,
    decreases n,
{
    if n > 0 {
        packages_in_range(files, root, n - 1);
        let known = packages(files, root, n - 1);
        let all = packages(files, root, n);
        assert forall|name: Seq<char>| #[trigger] all.contains_key(name) implies 0 <= all[name]
            < n by {
            if known.contains_key(name) {
                assert(0 <= known[name] < n);
            }
        }
    }
}

fn add_modules(tree: &ProjectTree, packages_index: &StringHashMap<usize>, index: &mut StringHashMap<
    usize,
>)
    requires
        agrees(packages_index@, packages(tree@, tree.root(), tree@.entries.len() as int)),
        agrees(old(index)@, packages(tree@, tree.root(), tree@.entries.len() as int)),
    ensures
        agrees(
            final(index)@,
            with_modules(
                tree@,
                packages(tree@, tree.root(), tree@.entries.len() as int),
                tree@.entries.len() as int,
            ),
        ),
{
    let ghost pk = packages(tree@, tree.root(), tree@.entries.len() as int);
    let entries = tree.entries();
    let mut j: usize = 0;
    while j < entries.len()
        invariant
            0 <= j <= entries@.len(),
            entries@ == tree@.entries,
            pk == packages(tree@, tree.root(), tree@.entries.len() as int),
            agrees(packages_index@, pk),
            agrees(index@, with_modules(tree@, pk, j as int)),
        decreases entries@.len() - j,
    {
        proof {
            packages_in_range(tree@, tree.root(), tree@.entries.len() as int);
        }
        let entry = &entries[j];
        if !entry.is_dir {
            let parts = parts_of(entry.path.as_str());
            let n: usize = parts.len();
            assert(n > 0 ==> rows(parts@).last() == parts@[n - 1]@);
            if n > 1 && module_name(&parts[n - 1]) {
                let dir = parent_parts(&parts);
                let name = name_package(tree, &dir);
                let home = match packages_index.get(text_of(&name).as_str()) {
                    Some(k) => same_parts(&parent_parts(&parts_of(entries[*k].path.as_str())), &dir),
                    None => false,
                };
                if home {
                    let mut full = copy_chars(&name);
                    full.push('.');
                    extend_chars(&mut full, &stem_of(&parts[n - 1]));
                    assert(full@ =~= name@ + seq!['.'] + stem(rows(parts@).last()));
                    let key = text_of(&full);
                    if !index.contains_key(key.as_str()) {
                        index.insert(key, j);
                    }
                }
            }
        }
        j += 1;
    }
}

fn add_root_modules(
    tree: &ProjectTree,
    index: &mut StringHashMap<usize>,
    Ghost(base): Ghost<Map<Seq<char>, int>>,
)
    requires
        agrees(old(index)@, base),
    ensures
        agrees(
            final(index)@,
            with_root_modules(tree@, tree.root(), base, tree@.entries.len() as int),
        ),
{
    let skip = skip_list();
    let entries = tree.entries();
    let mut j: usize = 0;
    while j < entries.len()
        invariant
            0 <= j <= entries@.len(),
            entries@ == tree@.entries,
            skip.deep_view() == python_skip(),
            agrees(index@, with_root_modules(tree@, tree.root(), base, j as int)),
        decreases entries@.len() - j,
    {
        let entry = &entries[j];
        if !entry.is_dir {
            let parts = parts_of(entry.path.as_str());
            assert(parts@.len() > 0 ==> rows(parts@).last() == parts@[parts@.len() - 1]@);
            if parts.len() == 1 && module_name(&parts[0]) && !passes_over(
                &parts,
                tree.root_name(),
                &skip,
            ) {
                let key = text_of(&stem_of(&parts[0]));
                if !index.contains_key(key.as_str()) {
                    index.insert(key, j);
                }
            }
        }
        j += 1;
    }
}

/// Maps each absolute name that can be imported to its entry.
pub fn build_package_index(tree: &ProjectTree) -> (index: StringHashMap<usize>)
    ensures
        agrees(index@, importable(tree@, tree.root())),
{
    let n: usize = tree.entries().len();
    // One map is read while the other grows.
    let known = find_packages(tree);
    let mut index = find_packages(tree);
    add_modules(tree, &known, &mut index);
    let ghost base = with_modules(tree@, packages(tree@, tree.root(), n as int), n as int);
    add_root_modules(tree, &mut index, Ghost(base));
    index
}

// ---------------------------------------------------------------------------------------------
// Resolution
// ---------------------------------------------------------------------------------------------
/// The file that the dotted name `parts` leads to below `base`, a list of components from the root
/// of the file system: a module, else a package.
pub open spec fn dotted_target(
    files: Files,
    parts: Seq<Seq<char>>,
    base: Seq<Seq<char>>,
) -> Option<Seq<char>> {
    let above = base + components(join(parts.drop_last(), seq!['/']));
    match file_of(files, above.push(parts.last() + ".py"@)) {
        Some(path) => Some(path),
        None => file_of(
            files,
            (base + components(join(parts, seq!['/']))).push("__init__.py"@),
        ),
    }
}

/// The file that a relative import of `name` leads to from `file`, `levels` packages up.
pub open spec fn relative_target(
    files: Files,
    name: Seq<char>,
    levels: int,
    file: Seq<char>,
) -> Option<Seq<char>> {
    let home = files.home + parent(components(file));
    if name.len() == 0 || levels > home.len() {
        None
    } else {
        dotted_target(files, split_on(name, '.'), home.take(home.len() - levels))
    }
}

/// The file that the longest importable prefix of at most `end` of `parts` leads to.
pub open spec fn absolute_target(
    files: Files,
    index: Map<Seq<char>, int>,
    parts: Seq<Seq<char>>,
    end: int,
) -> Option<Seq<char>>
    decreases end,
{
    if end <= 0 {
        None
    } else {
        let key = join(parts.take(end), seq!['.']);
        if index.contains_key(key) {
            Some(files.entries[index[key]].path@)
        } else {
            absolute_target(files, index, parts, end - 1)
        }
    }
}

/// The file that `specifier` leads to from `file`.
pub open spec fn python_target(
    files: Files,
    root: Seq<char>,
    specifier: Seq<char>,
    file: Seq<char>,
) -> Option<Seq<char>> {
    match strip_prefix(specifier, "rel:"@) {
        Some(rest) => match index_of(rest, ':', 0) {
            Some(i) => match parse_number(rest.take(i)) {
                Some(levels) => relative_target(files, rest.skip(i + 1), levels as int, file),
                None => None,
            },
            None => None,
        },
        None => match strip_prefix(specifier, "abs:"@) {
            Some(name) => {
                let parts = split_on(name, '.');
                absolute_target(files, importable(files, root), parts, parts.len() as int)
            },
            None => None,
        },
    }
}

fn resolve_dotted(name: &Vec<char>, base: &Vec<Vec<char>>, tree: &ProjectTree) -> (r: Option<String>)
    ensures
        opt_text(r) == dotted_target(tree@, split_on(name@, '.'), rows(base@)),
{
    let parts = split_chars(name, '.');
    let n: usize = parts.len();
    assert(rows(parts@).last() == parts@[n - 1]@);
    assert(rows(parts@).drop_last() =~= rows(parts@).take(n - 1));
    let above = text_of(&join_rows(&first_parts(&parts, n - 1), '/'));
    let dir = joined_parts(base, &parts_of(above.as_str()));
    let mut last = copy_chars(&parts[n - 1]);
    extend_chars(&mut last, &chars_of(".py"));
    if let Some(path) = tree.file_of(&with_part(&dir, &last)) {
        return Some(path);
    }
    let whole = text_of(&join_rows(&parts, '/'));
    let package = joined_parts(base, &parts_of(whole.as_str()));
    tree.file_of(&with_part(&package, &chars_of("__init__.py")))
}

fn resolve_relative(name: &Vec<char>, levels: usize, importing_file: &str, tree: &ProjectTree) -> (r:
    Option<String>)
    ensures
        opt_text(r) == relative_target(tree@, name@, levels as int, importing_file@),
{
    let home = tree.from_home(&parent_parts(&parts_of(importing_file)));
    assert(rows(home@).len() == home@.len());
    if name.len() == 0 || levels > home.len() {
        return None;
    }
    resolve_dotted(name, &first_parts(&home, home.len() - levels), tree)
}

fn resolve_absolute(name: &Vec<char>, index: &StringHashMap<usize>, tree: &ProjectTree) -> (r: Option<
    String,
>)
    requires
        agrees(index@, importable(tree@, tree.root())),
    ensures
        opt_text(r) == absolute_target(
            tree@,
            importable(tree@, tree.root()),
            split_on(name@, '.'),
            split_on(name@, '.').len() as int,
        ),
{
    let parts = split_chars(name, '.');
    let ghost all = split_on(name@, '.');
    let ghost model = importable(tree@, tree.root());
    proof {
        importable_in_range(tree@, tree.root());
        assert(all.len() == parts@.len());
    }
    let mut end: usize = parts.len();
    while end > 0
        invariant
            0 <= end <= parts@.len(),
            rows(parts@) == all,
            all == split_on(name@, '.'),
            model == importable(tree@, tree.root()),
            agrees(index@, model),
            forall|k: Seq<char>| #[trigger]
                model.contains_key(k) ==> 0 <= model[k] < tree@.entries.len(),
            absolute_target(tree@, model, all, all.len() as int) == absolute_target(
                tree@,
                model,
                all,
                end as int,
            ),
        decreases end,
    {
        let key = text_of(&join_rows(&first_parts(&parts, end), '.'));
        if let Some(i) = index.get(key.as_str()) {
            assert(model.contains_key(key@));
            return Some(tree.entries()[*i].path.clone());
        }
        end -= 1;
    }
    None
}

proof fn importable_in_range(files: Files, root: Seq<char>)
    ensures
        forall|name: Seq<char>| #[trigger]
            importable(files, root).contains_key(name) ==> 0 <= importable(files, root)[name]
                < files.entries.len(),
{
    let n = files.entries.len() as int;
    packages_in_range(files, root, n);
    modules_in_range(files, packages(files, root, n), n);
    root_modules_in_range(files, root, with_modules(files, packages(files, root, n), n), n);
}

proof fn modules_in_range(files: Files, pk: Map<Seq<char>, int>, n: int)
    requires
        n <= files.entries.len(),
        forall|name: Seq<char>| #[trigger]
            pk.contains_key(name) ==> 0 <= pk[name] < files.entries.len(),
    ensures
        forall|name: Seq<char>| #[trigger]
            with_modules(files, pk, n).contains_key(name) ==> 0 <= with_modules(
                files,
                pk,
                n,
            )[name] < files.entries.len(),
    decreases n,
{
    if n > 0 {
        modules_in_range(files, pk, n - 1);
        let known = with_modules(files, pk, n - 1);
        let all = with_modules(files, pk, n);
        assert forall|name: Seq<char>| #[trigger] all.contains_key(name) implies 0 <= all[name]
            < files.entries.len() by {
            if known.contains_key(name) {
                assert(0 <= known[name] < files.entries.len());
            }
        }
    }
}

proof fn root_modules_in_range(
    files: Files,
    root: Seq<char>,
    base: Map<Seq<char>, int>,
    n: int,
)
    requires
        n <= files.entries.len(),
        forall|name: Seq<char>| #[trigger]
            base.contains_key(name) ==> 0 <= base[name] < files.entries.len(),
    ensures
        forall|name: Seq<char>| #[trigger]
            with_root_modules(files, root, base, n).contains_key(name) ==> 0
                <= with_root_modules(files, root, base, n)[name] < files.entries.len(),
    decreases n,
{
    if n > 0 {
        root_modules_in_range(files, root, base, n - 1);
        let known = with_root_modules(files, root, base, n - 1);
        let all = with_root_modules(files, root, base, n);
        assert forall|name: Seq<char>| #[trigger] all.contains_key(name) implies 0 <= all[name]
            < files.entries.len() by {
            if known.contains_key(name) {
                assert(0 <= known[name] < files.entries.len());
            }
        }
    }
}

/// Extractor for Python. It remembers the packages of the project once it has been prepared.
pub struct PythonExtractor {
    package_index: Option<StringHashMap<usize>>,
}

impl PythonExtractor {
    /// An extractor that knows no project yet.
    pub fn new() -> (r: PythonExtractor)
        ensures
            forall|tree: &ProjectTree| #[trigger] r.fits(tree),
    {
        PythonExtractor { package_index: None }
    }

    /// What the extractor remembers is true of `tree`.
    pub closed spec fn remembers(&self, tree: &ProjectTree) -> bool {
        match self.package_index {
            Some(index) => agrees(index@, importable(tree@, tree.root())),
            None => true,
        }
    }

    /// Learns the packages of the project.
    pub fn prepare(&mut self, tree: &ProjectTree)
        ensures
            final(self).fits(tree),
    {
        self.package_index = Some(build_package_index(tree));
    }
}

impl ImportExtractor for PythonExtractor {
    open spec fn imports(&self, source: Seq<char>) -> Seq<Seq<char>> {
        python_imports(source)
    }

    open spec fn target(
        &self,
        specifier: Seq<char>,
        file: Seq<char>,
        tree: &ProjectTree,
    ) -> Option<Seq<char>> {
        python_target(tree@, tree.root(), specifier, file)
    }

    open spec fn targets(
        &self,
        specifier: Seq<char>,
        file: Seq<char>,
        tree: &ProjectTree,
    ) -> Seq<Seq<char>> {
        at_most_one(self.target(specifier, file, tree))
    }

    open spec fn fits(&self, tree: &ProjectTree) -> bool {
        self.remembers(tree)
    }

    fn extensions(&self) -> (r: Vec<&'static str>)
        ensures
            r.deep_view() == seq!["py"@],
    {
        let r = vec!["py"];
        assert(r.deep_view() =~= seq!["py"@]);
        r
    }

    fn extract_imports(&self, source: &str) -> (r: Vec<String>)
        ensures
            is_read(PYTHON_IMPORT@, python_uncommented(source@)),
            r.deep_view() == python_imports(source@),
    {
        let cleaned = text_of(&strip_python_comments(source));
        match find_all(PYTHON_IMPORT, cleaned.as_str()) {
            Some(found) => specifiers_of(&found),
            None => {
                let r: Vec<String> = Vec::new();
                assert(r.deep_view() =~= Seq::<Seq<char>>::empty());
                r
            },
        }
    }

    fn resolve(&self, specifier: &str, importing_file: &str, tree: &ProjectTree) -> (r: Option<
        String,
    >) {
        if let Some(text) = after_prefix(specifier, "rel:") {
            let rest = chars_of(text.as_str());
            let n: usize = rest.len();
            let i: usize = match find_char(&rest, ':', 0) {
                Some(i) => i,
                None => {
                    return None;
                },
            };
            let digits = slice_of(&rest, 0, i);
            let name = slice_of(&rest, i + 1, n);
            assert(digits@ =~= rest@.take(i as int));
            assert(name@ =~= rest@.skip(i + 1));
            return match number_of(&digits) {
                Some(levels) => resolve_relative(&name, levels, importing_file, tree),
                None => None,
            };
        }
        if let Some(text) = after_prefix(specifier, "abs:") {
            let name = chars_of(text.as_str());
            return match &self.package_index {
                Some(index) => resolve_absolute(&name, index, tree),
                None => resolve_absolute(&name, &build_package_index(tree), tree),
            };
        }
        None
    }

    fn resolve_many(&self, specifier: &str, importing_file: &str, tree: &ProjectTree) -> (r: Vec<
        String,
    >) {
        list_of(self.resolve(specifier, importing_file, tree))
    }
}

} // verus!
