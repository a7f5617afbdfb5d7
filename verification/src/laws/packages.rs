//! Where the imports of Python, Rust and Go lead.
use vstd::prelude::*;

use crate::imports::go::{best_module, go_targets, is_package_file, modules, package_files};
use crate::imports::python::{dotted_target, python_target};
use crate::imports::rust::{crate_entry, declares_crate, rust_target};
use crate::laws::modules::{
    has_dir, has_file, has_nothing, in_dir, in_dir_is_below, is_module, is_one_part, is_plain_dir,
    leads_on, lookups_find_files, modules_are_parts, no_components, one_component,
    straight_paths_lead_there,
};
use crate::laws::test_names::components_of_joined;
use crate::paths::{components, dot, dot_dot, path_of};
use crate::text::{
    digits_value, ends_with, index_of, is_digit, join, listed, occurs_at, parse_number, split_on,
    strip_prefix, trim_start_by,
};
use crate::tree::{file_of, is_within, name_in, place, shelf, Files};

verus! {

// ---------------------------------------------------------------------------------------------
// Python
// ---------------------------------------------------------------------------------------------
proof fn undotted(n: Seq<char>)
    requires
        forall|k: int| 0 <= k < n.len() ==> #[trigger] n[k] != '.',
    ensures
        split_on(n, '.') == seq![n],
    decreases n.len(),
{
    if n.len() == 0 {
        assert(n =~= Seq::empty());
    } else {
        let y = n.drop_last();
        assert forall|k: int| 0 <= k < y.len() implies #[trigger] y[k] != '.' by {
            assert(y[k] == n[k]);
        }
        undotted(y);
        assert(n[n.len() - 1] != '.');
        assert(seq![y].drop_last() =~= Seq::empty());
        assert(y.push(n.last()) =~= n);
        assert(split_on(n, '.') =~= seq![n]);
    }
}

proof fn dotted_pair(a: Seq<char>, b: Seq<char>)
    requires
        is_module(a),
        is_module(b),
    ensures
        split_on(a + seq!['.'] + b, '.') == seq![a, b],
{
    undotted(a);
    assert(!b.contains('.')) by {
        if b.contains('.') {
            let i = choose|i: int| 0 <= i < b.len() && b[i] == '.';
            assert(b[i] != '.');
        }
    }
    crate::text::split_ends_in_piece(a, b, '.');
    assert(a.push('.') + b =~= a + seq!['.'] + b);
    assert(seq![a].push(b) =~= seq![a, b]);
}

/// What the name of one or two modules leads to below the directory `w`.
proof fn dotted_names(files: Files, w: Seq<char>, a: Seq<char>, n: Seq<char>)
    requires
        leads_on(files.home),
        is_plain_dir(w),
        is_module(a),
        is_module(n),
    ensures
        is_module_of(files, w, n, dotted_target(files, seq![n], files.home + components(w))),
        is_module_of(
            files,
            in_dir(w, a),
            n,
            dotted_target(files, seq![a, n], files.home + components(w)),
        ),
{
    let base = files.home + components(w);
    modules_are_parts(n);
    modules_are_parts(a);
    python_names(n);
    let none = Seq::<Seq<char>>::empty();
    assert(seq![n].drop_last() =~= none);
    assert(join(none, seq!['/']) =~= Seq::empty());
    no_components();
    assert(base + Seq::<Seq<char>>::empty() =~= base);
    one_component(n);
    one_component(a);
    assert(join(seq![n], seq!['/']) == n);
    module_lookups(files, w, n);
    assert(base.push(n + ".py"@) =~= files.home + components(w).push(n + ".py"@));
    assert((base + seq![n]).push("__init__.py"@) =~= files.home + components(w).push(n).push(
        "__init__.py"@,
    ));
    let v = in_dir(w, a);
    in_dir_is_below(w, a);
    module_lookups(files, v, n);
    assert(seq![a, n].drop_last() =~= seq![a]);
    assert(join(seq![a], seq!['/']) == a);
    assert(join(seq![a, n], seq!['/']) == a + seq!['/'] + n);
    components_of_joined(a, n);
    assert(seq![a] + seq![n] =~= seq![a, n]);
    assert((base + seq![a]).push(n + ".py"@) =~= files.home + components(v).push(n + ".py"@));
    assert((base + seq![a, n]).push("__init__.py"@) =~= files.home + components(v).push(n).push(
        "__init__.py"@,
    ));
}

proof fn python_names(n: Seq<char>)
    requires
        is_module(n),
    ensures
        is_one_part(n + ".py"@),
        is_one_part("__init__.py"@),
{
    reveal_strlit(".py");
    reveal_strlit("__init__.py");
    let x = n + ".py"@;
    assert(n[0] != '.');
    assert(x[0] == n[0]);
    assert(dot()[0] == '.' && dot_dot()[0] == '.');
    assert forall|k: int| 0 <= k < x.len() implies #[trigger] x[k] != '/' by {
        if k < n.len() {
            assert(x[k] == n[k]);
        }
    }
}

/// `found` is the module `n` in the directory `w`: `n.py`, or else the package `n`.
pub open spec fn is_module_of(
    files: Files,
    w: Seq<char>,
    n: Seq<char>,
    found: Option<Seq<char>>,
) -> bool {
    let direct = in_dir(w, n + ".py"@);
    let package = in_dir(w, n + "/__init__.py"@);
    &&& has_file(files, direct) ==> found == Some(direct)
    &&& has_nothing(files, direct) && has_file(files, package) ==> found == Some(package)
    &&& has_nothing(files, direct) && has_nothing(files, package) ==> found is None
}

proof fn module_lookups(files: Files, w: Seq<char>, n: Seq<char>)
    requires
        leads_on(files.home),
        is_plain_dir(w),
        is_module(n),
    ensures
        is_module_of(
            files,
            w,
            n,
            match file_of(files, files.home + components(w).push(n + ".py"@)) {
                Some(path) => Some(path),
                None => file_of(files, files.home + components(w).push(n).push("__init__.py"@)),
            },
        ),
{
    reveal_strlit("__init__.py");
    reveal_strlit("/__init__.py");
    modules_are_parts(n);
    python_names(n);
    in_dir_is_below(w, n + ".py"@);
    in_dir_is_below(w, n);
    in_dir_is_below(in_dir(w, n), "__init__.py"@);
    lookups_find_files(files, components(w).push(n + ".py"@));
    lookups_find_files(files, components(w).push(n).push("__init__.py"@));
    assert(in_dir(in_dir(w, n), "__init__.py"@) =~= in_dir(w, n + "/__init__.py"@));
}

proof fn relative_specifier(head: Seq<char>, level: char, name: Seq<char>)
    requires
        head == seq!['r', 'e', 'l', ':', level, ':'],
        level == '0' || level == '1',
    ensures
        ({
            let rest = (head + name).skip(4);
            &&& strip_prefix(head + name, "rel:"@) == Some(rest)
            &&& index_of(rest, ':', 0) == Some(1int)
            &&& rest.skip(2) == name
            &&& parse_number(rest.take(1)) == Some(
                if level == '0' {
                    0nat
                } else {
                    1nat
                },
            )
        }),
{
    reveal_strlit("rel:");
    let spec = head + name;
    let rest = spec.skip(4);
    assert(spec.subrange(0, 4) =~= "rel:"@);
    assert(rest[0] == level && rest[1] == ':');
    reveal_with_fuel(index_of, 3);
    assert(rest.skip(2) =~= name);
    let one = rest.take(1);
    assert(one =~= seq![level]);
    assert(one.drop_last() =~= Seq::<char>::empty());
    reveal_with_fuel(digits_value, 3);
    assert(digits_value(Seq::<char>::empty()) == 0);
    assert(one.last() == level);
    assert('0' as u32 == 48 && '1' as u32 == 49);
    assert(forall|i: int| 0 <= i < one.len() ==> is_digit(#[trigger] one[i]));
}

/// `from .n import` leads to the module `n` beside the file, and `from .a.n import` to the module
/// `n` in the package `a` beside it.
pub proof fn one_dot_leads_beside(
    files: Files,
    root: Seq<char>,
    d: Seq<char>,
    own: Seq<char>,
    a: Seq<char>,
    n: Seq<char>,
)
    requires
        leads_on(files.home),
        is_plain_dir(d),
        is_one_part(own),
        is_module(a),
        is_module(n),
    ensures
        is_module_of(files, d, n, python_target(files, root, "rel:0:"@ + n, in_dir(d, own))),
        is_module_of(
            files,
            in_dir(d, a),
            n,
            python_target(files, root, "rel:0:"@ + a + "."@ + n, in_dir(d, own)),
        ),
{
    reveal_strlit("rel:0:");
    reveal_strlit(".");
    let head = "rel:0:"@;
    assert(head =~= seq!['r', 'e', 'l', ':', '0', ':']);
    let both = a + seq!['.'] + n;
    assert(head + a + "."@ + n =~= head + both);
    relative_specifier(head, '0', n);
    relative_specifier(head, '0', both);
    in_dir_is_below(d, own);
    assert(components(d).push(own).drop_last() =~= components(d));
    let home = files.home + components(d);
    assert(home.take(home.len() as int) =~= home);
    undotted(n);
    dotted_pair(a, n);
    dotted_names(files, d, a, n);
}

/// A second dot leads one directory up.
pub proof fn two_dots_lead_above(
    files: Files,
    root: Seq<char>,
    w: Seq<char>,
    e: Seq<char>,
    own: Seq<char>,
    a: Seq<char>,
    n: Seq<char>,
)
    requires
        leads_on(files.home),
        is_plain_dir(w),
        is_one_part(e),
        is_one_part(own),
        is_module(a),
        is_module(n),
    ensures
        is_module_of(
            files,
            w,
            n,
            python_target(files, root, "rel:1:"@ + n, in_dir(in_dir(w, e), own)),
        ),
        is_module_of(
            files,
            in_dir(w, a),
            n,
            python_target(files, root, "rel:1:"@ + a + "."@ + n, in_dir(in_dir(w, e), own)),
        ),
{
    reveal_strlit("rel:1:");
    reveal_strlit(".");
    let head = "rel:1:"@;
    assert(head =~= seq!['r', 'e', 'l', ':', '1', ':']);
    let both = a + seq!['.'] + n;
    assert(head + a + "."@ + n =~= head + both);
    relative_specifier(head, '1', n);
    relative_specifier(head, '1', both);
    in_dir_is_below(w, e);
    in_dir_is_below(in_dir(w, e), own);
    assert(components(w).push(e).push(own).drop_last() =~= components(w).push(e));
    let home = files.home + components(w).push(e);
    assert(home.take(home.len() - 1) =~= files.home + components(w));
    undotted(n);
    dotted_pair(a, n);
    dotted_names(files, w, a, n);
}

// ---------------------------------------------------------------------------------------------
// Rust
// ---------------------------------------------------------------------------------------------
proof fn last_declaration(files: Files, root: Seq<char>, name: Seq<char>, i: int, n: int)
    requires
        0 <= i < n <= files.entries.len(),
        declares_crate(files, root, i, name),
        forall|j: int| i < j < n ==> !(#[trigger] declares_crate(files, root, j, name)),
    ensures
        crate_entry(files, root, name, n) == Some(i),
    decreases n,
{
    if i < n - 1 {
        assert(!declares_crate(files, root, n - 1, name));
        last_declaration(files, root, name, i, n - 1);
    }
}

/// A crate that a manifest of the project declares is entered through the `lib.rs` in its `src`
/// directory, or else through the `main.rs` there.
pub proof fn crates_are_entered_through_their_roots(
    files: Files,
    root: Seq<char>,
    d: Seq<char>,
    name: Seq<char>,
    i: int,
)
    requires
        leads_on(files.home),
        is_plain_dir(d),
        0 <= i < files.entries.len(),
        files.entries[i].path@ == in_dir(d, "Cargo.toml"@),
        declares_crate(files, root, i, name),
        forall|j: int|
            i < j < files.entries.len() ==> !(#[trigger] declares_crate(files, root, j, name)),
    ensures
        ({
            let lib = in_dir(d, "src/lib.rs"@);
            let main = in_dir(d, "src/main.rs"@);
            let found = rust_target(files, root, "use:"@ + name, in_dir(d, "x"@));
            &&& has_file(files, lib) ==> found == Some(lib)
            &&& has_nothing(files, lib) && has_file(files, main) ==> found == Some(main)
            &&& has_nothing(files, lib) && has_nothing(files, main) ==> found is None
        }),
{
    reveal_strlit("use:");
    reveal_strlit("mod:");
    reveal_strlit("Cargo.toml");
    reveal_strlit("src");
    reveal_strlit("lib.rs");
    reveal_strlit("main.rs");
    reveal_strlit("src/lib.rs");
    reveal_strlit("src/main.rs");
    let spec = "use:"@ + name;
    assert(spec.subrange(0, 4) =~= "use:"@);
    assert(spec.skip(4) =~= name);
    if spec.subrange(0, 4) == "mod:"@ {
        assert("use:"@[0] == "mod:"@[0]);
    }
    last_declaration(files, root, name, i, files.entries.len() as int);
    assert(dot()[0] == '.' && dot_dot()[0] == '.');
    in_dir_is_below(d, "Cargo.toml"@);
    assert(components(d).push("Cargo.toml"@).drop_last() =~= components(d));
    in_dir_is_below(d, "src"@);
    in_dir_is_below(in_dir(d, "src"@), "lib.rs"@);
    in_dir_is_below(in_dir(d, "src"@), "main.rs"@);
    let src = components(d).push("src"@);
    lookups_find_files(files, src.push("lib.rs"@));
    lookups_find_files(files, src.push("main.rs"@));
    assert(in_dir(in_dir(d, "src"@), "lib.rs"@) =~= in_dir(d, "src/lib.rs"@));
    assert(in_dir(in_dir(d, "src"@), "main.rs"@) =~= in_dir(d, "src/main.rs"@));
}

// ---------------------------------------------------------------------------------------------
// Go
// ---------------------------------------------------------------------------------------------
/// The best module of a package is one that the package belongs to, and none that it belongs to
/// has a longer path.
pub proof fn the_longest_module_counts(list: Seq<(Seq<char>, int)>, spec: Seq<char>, n: int)
    requires
        0 <= n <= list.len(),
    ensures
        match best_module(list, spec, n) {
            Some(best) => {
                &&& exists|k: int| 0 <= k < n && #[trigger] list[k] == best
                &&& best.0.len() > 0
                &&& spec == best.0 || occurs_at(spec, best.0.push('/'), 0)
                &&& forall|k: int|
                    0 <= k < n && (#[trigger] list[k]).0.len() > best.0.len() ==> spec != list[k].0
                        && !occurs_at(spec, list[k].0.push('/'), 0)
            },
            None => forall|k: int|
                0 <= k < n && (#[trigger] list[k]).0.len() > 0 ==> spec != list[k].0 && !occurs_at(
                    spec,
                    list[k].0.push('/'),
                    0,
                ),
        },
    decreases n,
{
    if n > 0 {
        the_longest_module_counts(list, spec, n - 1);
        match best_module(list, spec, n) {
            Some(best) => {
                if best == list[n - 1] {
                    assert(list[n - 1] == best);
                } else {
                    let k = choose|k: int| 0 <= k < n - 1 && #[trigger] list[k] == best;
                    assert(list[k] == best);
                }
            },
            None => {},
        }
    }
}

proof fn package_lists(files: Files, at: Seq<Seq<char>>, n: int, i: int)
    requires
        0 <= i < n <= shelf(files, at).len(),
        is_package_file(shelf(files, at)[i], place(files, at)),
    ensures
        listed(
            package_files(files, at, n),
            name_in(files, at, components(shelf(files, at)[i].path@).last()),
        ),
    decreases n,
{
    let want = name_in(files, at, components(shelf(files, at)[i].path@).last());
    let rest = package_files(files, at, n - 1);
    let all = package_files(files, at, n);
    if i < n - 1 {
        package_lists(files, at, n - 1, i);
        let k = choose|k: int| 0 <= k < rest.len() && #[trigger] rest[k] == want;
        assert(all[k] == want);
    } else {
        assert(all[rest.len() as int] == want);
    }
}

proof fn packages_hold_sources(files: Files, at: Seq<Seq<char>>, n: int, k: int)
    requires
        0 <= n <= shelf(files, at).len(),
        0 <= k < package_files(files, at, n).len(),
    ensures
        exists|i: int|
            0 <= i < n && #[trigger] is_package_file(shelf(files, at)[i], place(files, at))
                && package_files(files, at, n)[k] == name_in(
                files,
                at,
                components(shelf(files, at)[i].path@).last(),
            ),
    decreases n,
{
    if n > 0 {
        let rest = package_files(files, at, n - 1);
        if k < rest.len() {
            packages_hold_sources(files, at, n - 1, k);
            let i = choose|i: int|
                0 <= i < n - 1 && #[trigger] is_package_file(
                    shelf(files, at)[i],
                    place(files, at),
                ) && rest[k] == name_in(files, at, components(shelf(files, at)[i].path@).last());
            assert(is_package_file(shelf(files, at)[i], place(files, at)));
        } else {
            assert(is_package_file(shelf(files, at)[n - 1], place(files, at)));
        }
    }
}

/// A package of the module `path`, whose `go.mod` stands in the directory `d`, consists of the Go
/// files in its directory other than the tests: `x` is one of them where, and only where, its name
/// ends in `.go` and not in `_test.go`.
pub proof fn packages_are_their_sources(
    files: Files,
    root: Seq<char>,
    path: Seq<char>,
    m: int,
    d: Seq<char>,
    sub: Seq<char>,
    x: Seq<char>,
    i: int,
)
    requires
        leads_on(files.home),
        is_plain_dir(d),
        is_one_part(sub),
        is_one_part(x),
        0 <= m < files.entries.len(),
        files.entries[m].path@ == in_dir(d, "go.mod"@),
        best_module(
            modules(files, root, files.entries.len() as int),
            path + seq!['/'] + sub,
            modules(files, root, files.entries.len() as int).len() as int,
        ) == Some((path, m)),
        has_dir(files, in_dir(d, sub)),
        0 <= i < files.entries.len(),
        files.entries[i].path@ == in_dir(in_dir(d, sub), x),
        !files.entries[i].is_dir,
    ensures
        ends_with(x, ".go"@) && !ends_with(x, "_test.go"@) ==> listed(
            go_targets(files, root, path + seq!['/'] + sub),
            in_dir(in_dir(d, sub), x),
        ),
        forall|k: int|
            0 <= k < go_targets(files, root, path + seq!['/'] + sub).len() ==> ends_with(
                #[trigger] go_targets(files, root, path + seq!['/'] + sub)[k],
                ".go"@,
            ) && !ends_with(go_targets(files, root, path + seq!['/'] + sub)[k], "_test.go"@),
{
    reveal_strlit("go.mod");
    reveal_strlit(".go");
    reveal_strlit("_test.go");
    let spec = path + seq!['/'] + sub;
    let set = |c: char| c == '/';
    let tail = spec.skip(path.len() as int);
    assert(tail =~= seq!['/'] + sub);
    assert(tail.drop_first() =~= sub);
    assert(sub[0] != '/');
    assert(trim_start_by(sub, set) == sub);
    assert(trim_start_by(tail, set) == sub);
    one_component(sub);
    assert(dot()[0] == '.' && dot_dot()[0] == '.');
    in_dir_is_below(d, "go.mod"@);
    assert(components(d).push("go.mod"@).drop_last() =~= components(d));
    in_dir_is_below(d, sub);
    in_dir_is_below(in_dir(d, sub), x);
    let dir = components(d).push(sub);
    lookups_find_files(files, dir);
    let at = files.home + dir;
    assert(files.home + components(d) + seq![sub] =~= at);
    assert forall|k: int| 0 <= k < at.len() implies #[trigger] at[k] != dot_dot() by {
        if k < files.home.len() {
            assert(at[k] == files.home[k]);
        } else {
            assert(at[k] == dir[k - files.home.len()]);
        }
    }
    straight_paths_lead_there(files, at);
    assert(at.take(files.home.len() as int) =~= files.home);
    assert(at.skip(files.home.len() as int) =~= dir);
    assert(is_within(files, at));
    let n = files.entries.len() as int;
    let found = go_targets(files, root, spec);
    assert(found == package_files(files, at, n));
    assert(dir.push(x).drop_last() =~= dir);
    assert(name_in(files, at, x) == path_of(dir.push(x)));
    if ends_with(x, ".go"@) && !ends_with(x, "_test.go"@) {
        assert(is_package_file(files.entries[i], place(files, at)));
        package_lists(files, at, n, i);
    }
    assert forall|k: int| 0 <= k < found.len() implies ends_with(#[trigger] found[k], ".go"@)
        && !ends_with(found[k], "_test.go"@) by {
        packages_hold_sources(files, at, n, k);
        let j = choose|j: int|
            0 <= j < n && #[trigger] is_package_file(shelf(files, at)[j], place(files, at))
                && found[k] == name_in(files, at, components(shelf(files, at)[j].path@).last());
        let y = components(files.entries[j].path@).last();
        endings_of_paths(dir, y);
    }
}

proof fn endings_of_paths(dir: Seq<Seq<char>>, y: Seq<char>)
    requires
        dir.len() > 0,
        ends_with(y, ".go"@),
        !ends_with(y, "_test.go"@),
    ensures
        ends_with(path_of(dir.push(y)), ".go"@),
        !ends_with(path_of(dir.push(y)), "_test.go"@),
{
    reveal_strlit(".go");
    reveal_strlit("_test.go");
    let p = path_of(dir.push(y));
    assert(dir.push(y).drop_last() =~= dir);
    assert(p =~= path_of(dir) + seq!['/'] + y);
    let n = p.len() as int;
    let m = y.len() as int;
    assert(p.subrange(n - 3, n) =~= y.subrange(m - 3, m));
    if ends_with(p, "_test.go"@) {
        let t = p.subrange(n - 8, n);
        if m >= 8 {
            assert(t =~= y.subrange(m - 8, m));
        } else {
            assert(p[n - m - 1] == '/');
            assert(t[8 - m - 1] == p[n - m - 1]);
        }
    }
}

} // verus!
