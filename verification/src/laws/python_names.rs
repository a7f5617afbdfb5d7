//! What the absolute names of Python modules stand for.
use vstd::prelude::*;

use crate::imports::python::{
    absolute_target, importable, is_init, package_chain, package_name, packages, python_target,
    qualified, with_modules, with_root_modules,
};
use crate::laws::modules::is_module;
use crate::laws::naming::stem_and_extension;
use crate::paths::{components, parent};
use crate::text::{join, split_on};
use crate::tree::{file_for, Files};

verus! {

/// A directory of its own is named by its last component; below a directory that is a package
/// itself, by the name of that package, a dot and its last component.
pub proof fn packages_are_named_by_their_chain(files: Files, dir: Seq<Seq<char>>, x: Seq<char>)
    ensures
        ({
            let nested = dir.len() > 0 && file_for(files, dir.push("__init__.py"@)) is Some;
            package_name(files, dir.push(x)) == if nested {
                package_name(files, dir) + seq!['.'] + x
            } else {
                x
            }
        }),
{
    let own = dir.push(x);
    assert(own.drop_last() =~= dir);
    let above = package_chain(files, dir, false);
    let chain = package_chain(files, own, true);
    assert(chain == above.push(x));
    assert(chain.drop_last() =~= above);
    if dir.len() > 0 && file_for(files, dir.push("__init__.py"@)) is Some {
        assert(above == package_chain(files, dir, true));
    }
}

/// The index of packages holds each package under its name. Of several packages of one name it
/// holds one that is no deeper than any other.
pub proof fn the_closest_package_counts(files: Files, root: Seq<char>, n: int, name: Seq<char>)
    requires
        0 <= n <= files.entries.len(),
    ensures
        packages(files, root, n).contains_key(name) <==> exists|i: int|
            0 <= i < n && #[trigger] is_init(files, root, i) && package_name(
                files,
                parent(components(files.entries[i].path@)),
            ) == name,
        packages(files, root, n).contains_key(name) ==> {
            let i = packages(files, root, n)[name];
            &&& 0 <= i < n
            &&& is_init(files, root, i)
            &&& package_name(files, parent(components(files.entries[i].path@))) == name
            &&& forall|j: int|
                0 <= j < n && #[trigger] is_init(files, root, j) && package_name(
                    files,
                    parent(components(files.entries[j].path@)),
                ) == name ==> components(files.entries[i].path@).len() <= components(
                    files.entries[j].path@,
                ).len()
        },
    decreases n,
{
    if n > 0 {
        the_closest_package_counts(files, root, n - 1, name);
        let k = packages(files, root, n - 1);
        if is_init(files, root, n - 1) && package_name(
            files,
            parent(components(files.entries[n - 1].path@)),
        ) == name {
            assert(packages(files, root, n).contains_key(name));
        }
    }
}

/// A file `__init__.py` in a directory makes it a package.
pub proof fn init_files_make_packages(files: Files, root: Seq<char>, i: int)
    ensures
        is_init(files, root, i) ==> {
            let parts = components(files.entries[i].path@);
            parts.len() > 1 && parts.last() == "__init__.py"@ && !files.entries[i].is_dir
        },
{
}

proof fn modules_are_kept(files: Files, pk: Map<Seq<char>, int>, n: int, name: Seq<char>)
    requires
        pk.contains_key(name),
    ensures
        with_modules(files, pk, n).contains_key(name),
        with_modules(files, pk, n)[name] == pk[name],
    decreases n,
{
    if n > 0 {
        modules_are_kept(files, pk, n - 1, name);
    }
}

proof fn root_modules_are_kept(
    files: Files,
    root: Seq<char>,
    base: Map<Seq<char>, int>,
    n: int,
    name: Seq<char>,
)
    requires
        base.contains_key(name),
    ensures
        with_root_modules(files, root, base, n).contains_key(name),
        with_root_modules(files, root, base, n)[name] == base[name],
    decreases n,
{
    if n > 0 {
        root_modules_are_kept(files, root, base, n - 1, name);
    }
}

/// Where an absolute name is that of a package, it stands for the package.
pub proof fn packages_come_first(files: Files, root: Seq<char>, name: Seq<char>)
    requires
        packages(files, root, files.entries.len() as int).contains_key(name),
    ensures
        importable(files, root).contains_key(name),
        importable(files, root)[name] == packages(files, root, files.entries.len() as int)[name],
{
    let n = files.entries.len() as int;
    let pk = packages(files, root, n);
    modules_are_kept(files, pk, n, name);
    root_modules_are_kept(files, root, with_modules(files, pk, n), n, name);
}

proof fn modules_are_added(
    files: Files,
    pk: Map<Seq<char>, int>,
    n: int,
    i: int,
    name: Seq<char>,
)
    requires
        0 <= i < n,
        qualified(files, pk, i) == Some(name),
    ensures
        with_modules(files, pk, n).contains_key(name),
    decreases n,
{
    if i < n - 1 {
        modules_are_added(files, pk, n - 1, i, name);
    }
}

/// A file `s.py` beside the `__init__.py` of a package is importable under the name of the package,
/// a dot and `s`.
pub proof fn modules_of_packages_are_importable(
    files: Files,
    root: Seq<char>,
    package: Seq<char>,
    i: int,
    s: Seq<char>,
)
    requires
        0 <= i < files.entries.len(),
        is_module(s),
        s != "__init__"@,
        ({
            let pk = packages(files, root, files.entries.len() as int);
            let parts = components(files.entries[i].path@);
            &&& pk.contains_key(package)
            &&& !files.entries[i].is_dir
            &&& parts.len() > 1
            &&& parts.last() == s + ".py"@
            &&& parts.drop_last() == parent(components(files.entries[pk[package]].path@))
            &&& package_name(files, parts.drop_last()) == package
        }),
    ensures
        importable(files, root).contains_key(package + seq!['.'] + s),
{
    reveal_strlit("py");
    reveal_strlit(".py");
    let n = files.entries.len() as int;
    let pk = packages(files, root, n);
    let e = "py"@;
    assert(is_module(e));
    assert(s + seq!['.'] + e =~= s + ".py"@);
    stem_and_extension(s, e);
    let name = package + seq!['.'] + s;
    assert(qualified(files, pk, i) == Some(name));
    modules_are_added(files, pk, n, i, name);
    root_modules_are_kept(files, root, with_modules(files, pk, n), n, name);
}

/// An absolute import leads to what the longest importable beginning of its name stands for.
pub proof fn the_longest_name_counts(
    files: Files,
    index: Map<Seq<char>, int>,
    parts: Seq<Seq<char>>,
    end: int,
)
    requires
        0 <= end <= parts.len(),
    ensures
        match absolute_target(files, index, parts, end) {
            Some(path) => exists|k: int|
                {
                    &&& 1 <= k <= end
                    &&& index.contains_key(#[trigger] join(parts.take(k), seq!['.']))
                    &&& path == files.entries[index[join(parts.take(k), seq!['.'])]].path@
                    &&& forall|j: int|
                        k < j <= end ==> !index.contains_key(
                            #[trigger] join(parts.take(j), seq!['.']),
                        )
                },
            None => forall|j: int|
                1 <= j <= end ==> !index.contains_key(#[trigger] join(parts.take(j), seq!['.'])),
        },
    decreases end,
{
    if end > 0 {
        let key = join(parts.take(end), seq!['.']);
        if index.contains_key(key) {
            assert(index.contains_key(join(parts.take(end), seq!['.'])));
        } else {
            the_longest_name_counts(files, index, parts, end - 1);
            if absolute_target(files, index, parts, end - 1) is Some {
                let path = absolute_target(files, index, parts, end - 1)->0;
                let k = choose|k: int|
                    {
                        &&& 1 <= k <= end - 1
                        &&& index.contains_key(#[trigger] join(parts.take(k), seq!['.']))
                        &&& path == files.entries[index[join(parts.take(k), seq!['.'])]].path@
                        &&& forall|j: int|
                            k < j <= end - 1 ==> !index.contains_key(
                                #[trigger] join(parts.take(j), seq!['.']),
                            )
                    };
                assert(index.contains_key(join(parts.take(k), seq!['.'])));
            }
        }
    }
}

/// The specifier of an absolute import is looked up as a whole first, and then by its beginnings.
pub proof fn absolute_imports_are_looked_up(
    files: Files,
    root: Seq<char>,
    name: Seq<char>,
    file: Seq<char>,
)
    ensures
        python_target(files, root, "abs:"@ + name, file) == absolute_target(
            files,
            importable(files, root),
            split_on(name, '.'),
            split_on(name, '.').len() as int,
        ),
{
    reveal_strlit("abs:");
    reveal_strlit("rel:");
    let spec = "abs:"@ + name;
    assert(spec.subrange(0, 4) =~= "abs:"@);
    assert(spec.skip(4) =~= name);
    if spec.subrange(0, 4) == "rel:"@ {
        assert("abs:"@[0] == "rel:"@[0]);
    }
}

} // verus!
