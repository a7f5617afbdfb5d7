//! Where the modules of a Rust file are found.
use vstd::prelude::*;

use crate::imports::rust::{mod_target, rust_target};
use crate::laws::test_names::components_of_joined;
use crate::paths::{components, dot, dot_dot, named_pieces, path_of, stem};
use crate::text::{last_index_of, split_on};
use crate::tree::{
    dir_at, entry_at, entry_is_there, file_for, is_above, is_within, leads_to_dir, located, name_of,
    Files,
};

verus! {

/// The path of `x` in the directory `d`, which is empty for the project root.
pub open spec fn in_dir(d: Seq<char>, x: Seq<char>) -> Seq<char> {
    if d.len() == 0 {
        x
    } else {
        d + seq!['/'] + x
    }
}

/// The project has a file at `path`.
pub open spec fn has_file(files: Files, path: Seq<char>) -> bool {
    &&& exists|i: int| 0 <= i < files.entries.len() && #[trigger] files.entries[i].path@ == path
    &&& forall|i: int|
        0 <= i < files.entries.len() && (#[trigger] files.entries[i]).path@ == path
            ==> !files.entries[i].is_dir
}

/// The project has a directory at `path`.
pub open spec fn has_dir(files: Files, path: Seq<char>) -> bool {
    &&& exists|i: int| 0 <= i < files.entries.len() && #[trigger] files.entries[i].path@ == path
    &&& forall|i: int|
        0 <= i < files.entries.len() && (#[trigger] files.entries[i]).path@ == path
            ==> files.entries[i].is_dir
}

/// The project has nothing at `path`.
pub open spec fn has_nothing(files: Files, path: Seq<char>) -> bool {
    forall|i: int| 0 <= i < files.entries.len() ==> (#[trigger] files.entries[i]).path@ != path
}

/// `d` is spelled plainly, and does not lead back.
pub open spec fn is_plain_dir(d: Seq<char>) -> bool {
    path_of(components(d)) == d && leads_on(components(d))
}

/// None of `parts` leads back.
pub open spec fn leads_on(parts: Seq<Seq<char>>) -> bool {
    forall|k: int| 0 <= k < parts.len() ==> #[trigger] parts[k] != dot_dot()
}

/// `x` is a single component of a path.
pub open spec fn is_one_part(x: Seq<char>) -> bool {
    &&& x.len() > 0
    &&& x != dot()
    &&& x != dot_dot()
    &&& forall|k: int| 0 <= k < x.len() ==> #[trigger] x[k] != '/'
}

// ---------------------------------------------------------------------------------------------
// Paths
// ---------------------------------------------------------------------------------------------
/// A text without slashes is one piece.
pub proof fn one_piece(x: Seq<char>)
    requires
        forall|k: int| 0 <= k < x.len() ==> #[trigger] x[k] != '/',
    ensures
        split_on(x, '/') == seq![x],
    decreases x.len(),
{
    if x.len() == 0 {
        assert(x =~= Seq::empty());
    } else {
        let y = x.drop_last();
        assert forall|k: int| 0 <= k < y.len() implies #[trigger] y[k] != '/' by {
            assert(y[k] == x[k]);
        }
        one_piece(y);
        assert(x[x.len() - 1] != '/');
        assert(seq![y].drop_last() =~= Seq::empty());
        assert(y.push(x.last()) =~= x);
        assert(split_on(x, '/') =~= seq![x]);
    }
}

/// A single component has no others.
pub proof fn one_component(x: Seq<char>)
    requires
        is_one_part(x),
    ensures
        components(x) == seq![x],
{
    one_piece(x);
    assert(seq![x].drop_last() =~= Seq::<Seq<char>>::empty());
    assert(named_pieces(seq![x].drop_last()) =~= Seq::<Seq<char>>::empty());
    assert(components(x) =~= seq![x]);
}

/// An empty path has no components.
pub proof fn no_components()
    ensures
        components(Seq::empty()) == Seq::<Seq<char>>::empty(),
{
    let none = Seq::<char>::empty();
    assert(split_on(none, '/') == seq![none]);
    assert(seq![none].drop_last() =~= Seq::<Seq<char>>::empty());
    assert(named_pieces(seq![none].drop_last()) =~= Seq::<Seq<char>>::empty());
}

/// The components of what stands in a directory, and its path.
pub proof fn in_dir_is_below(d: Seq<char>, x: Seq<char>)
    requires
        is_plain_dir(d),
        is_one_part(x),
    ensures
        components(in_dir(d, x)) == components(d).push(x),
        path_of(components(d).push(x)) == in_dir(d, x),
        is_plain_dir(in_dir(d, x)),
        in_dir(d, x).len() > 0,
{
    one_component(x);
    let parts = components(d);
    let more = parts.push(x);
    assert(more.drop_last() =~= parts);
    if d.len() == 0 {
        assert(d =~= Seq::empty());
        no_components();
        assert(more =~= seq![x]);
    } else {
        components_of_joined(d, x);
        assert(components(d) + seq![x] =~= more);
        if parts.len() == 0 {
            assert(path_of(parts) =~= Seq::empty());
        }
    }
    assert forall|k: int| 0 <= k < more.len() implies #[trigger] more[k] != dot_dot() by {
        if k < parts.len() {
            assert(more[k] == parts[k]);
        }
    }
}

// ---------------------------------------------------------------------------------------------
// Looking files up
// ---------------------------------------------------------------------------------------------
/// A path that never leads back leads where it says.
pub proof fn straight_paths_lead_there(files: Files, parts: Seq<Seq<char>>)
    requires
        leads_on(parts),
    ensures
        located(files, parts) == Some(parts),
    decreases parts.len(),
{
    if parts.len() > 0 {
        let rest = parts.drop_last();
        assert forall|k: int| 0 <= k < rest.len() implies #[trigger] rest[k] != dot_dot() by {
            assert(rest[k] == parts[k]);
        }
        straight_paths_lead_there(files, rest);
        assert(parts[parts.len() - 1] != dot_dot());
        assert(rest.push(parts.last()) =~= parts);
    } else {
        assert(parts =~= Seq::empty());
    }
}

/// A lookup finds nothing where nothing is.
pub proof fn no_entry_there(files: Files, path: Seq<char>, n: int)
    requires
        has_nothing(files, path),
        0 <= n <= files.entries.len(),
    ensures
        entry_at(files.entries, path, n) is None,
    decreases n,
{
    if n > 0 {
        no_entry_there(files, path, n - 1);
    }
}

/// A lookup finds something where something is.
pub proof fn some_entry_there(files: Files, path: Seq<char>, i: int, n: int)
    requires
        0 <= i < n <= files.entries.len(),
        files.entries[i].path@ == path,
    ensures
        entry_at(files.entries, path, n) is Some,
    decreases n,
{
    if i < n - 1 {
        some_entry_there(files, path, i, n - 1);
    }
}

/// A lookup below the root finds the file or directory that is there, and nothing where nothing is.
pub proof fn lookups_find_files(files: Files, parts: Seq<Seq<char>>)
    requires
        leads_on(files.home),
        leads_on(parts),
        parts.len() > 0,
    ensures
        has_file(files, path_of(parts)) ==> file_for(files, parts) == Some(path_of(parts))
            && !leads_to_dir(files, parts),
        has_nothing(files, path_of(parts)) ==> file_for(files, parts) is None && !leads_to_dir(
            files,
            parts,
        ),
        has_dir(files, path_of(parts)) ==> file_for(files, parts) is None && leads_to_dir(
            files,
            parts,
        ) && dir_at(files, files.home + parts),
{
    let path = path_of(parts);
    let n = files.entries.len() as int;
    let at = files.home + parts;
    assert forall|k: int| 0 <= k < at.len() implies #[trigger] at[k] != dot_dot() by {
        if k < files.home.len() {
            assert(at[k] == files.home[k]);
        } else {
            assert(at[k] == parts[k - files.home.len()]);
        }
    }
    straight_paths_lead_there(files, at);
    assert(at.take(files.home.len() as int) =~= files.home);
    assert(at.skip(files.home.len() as int) =~= parts);
    assert(is_within(files, at) && !is_above(files, at));
    assert(name_of(files, at) == path);
    if has_file(files, path) || has_dir(files, path) {
        let i = choose|i: int| 0 <= i < n && #[trigger] files.entries[i].path@ == path;
        some_entry_there(files, path, i, n);
        entry_is_there(files.entries, path, n);
    }
    if has_nothing(files, path) {
        no_entry_there(files, path, n);
    }
}

proof fn stem_of_rust_file(s: Seq<char>)
    requires
        s.len() > 0,
    ensures
        stem(s + ".rs"@) == s,
{
    reveal_strlit(".rs");
    let x = s + ".rs"@;
    let n = x.len() as int;
    assert(x[n - 1] == 's' && x[n - 2] == 'r' && x[n - 3] == '.');
    reveal_with_fuel(last_index_of, 4);
    assert(last_index_of(x, '.', n) == Some(n - 3));
    assert(x.take(n - 3) =~= s);
}

/// `name` can be the name of a module or of its file.
pub open spec fn is_module(name: Seq<char>) -> bool {
    name.len() > 0 && forall|k: int| 0 <= k < name.len() ==> #[trigger] name[k] != '/' && name[k]
        != '.'
}

/// The names of modules and of their files are single components.
pub proof fn modules_are_parts(name: Seq<char>)
    requires
        is_module(name),
    ensures
        is_one_part(name),
        is_one_part(name + ".rs"@),
        is_one_part("mod.rs"@),
{
    reveal_strlit(".rs");
    reveal_strlit("mod.rs");
    let x = name + ".rs"@;
    assert(name[0] != '.');
    assert(x.len() == name.len() + 3);
    assert(dot().len() == 1 && dot_dot().len() == 2);
    assert(dot()[0] == '.' && dot_dot()[0] == '.');
    assert forall|k: int| 0 <= k < x.len() implies #[trigger] x[k] != '/' by {
        if k < name.len() {
            assert(x[k] == name[k]);
        }
    }
}

/// The target of `mod name;`, where the module is looked for in the directory `w`.
proof fn modules_in(files: Files, w: Seq<char>, name: Seq<char>, dir: Seq<Seq<char>>)
    requires
        leads_on(files.home),
        is_plain_dir(w),
        is_module(name),
        dir == components(w),
    ensures
        ({
            let direct = in_dir(w, name + ".rs"@);
            let nested = in_dir(in_dir(w, name), "mod.rs"@);
            let found = match file_for(files, dir.push(name + ".rs"@)) {
                Some(path) => Some(path),
                None => file_for(files, dir.push(name).push("mod.rs"@)),
            };
            &&& has_file(files, direct) ==> found == Some(direct)
            &&& has_nothing(files, direct) && has_file(files, nested) ==> found == Some(nested)
            &&& has_nothing(files, direct) && has_nothing(files, nested) ==> found is None
        }),
{
    modules_are_parts(name);
    in_dir_is_below(w, name + ".rs"@);
    in_dir_is_below(w, name);
    in_dir_is_below(in_dir(w, name), "mod.rs"@);
    lookups_find_files(files, dir.push(name + ".rs"@));
    lookups_find_files(files, dir.push(name).push("mod.rs"@));
}

proof fn mod_specifier(files: Files, root: Seq<char>, name: Seq<char>, file: Seq<char>)
    ensures
        rust_target(files, root, "mod:"@ + name, file) == mod_target(files, name, file),
{
    reveal_strlit("mod:");
    let s = "mod:"@ + name;
    assert(s.subrange(0, 4) =~= "mod:"@);
    assert(s.skip(4) =~= name);
}

/// A module that `lib.rs`, `main.rs` or `mod.rs` in the directory `d` declares stands in the same
/// directory: in `name.rs`, or else in `name/mod.rs`.
pub proof fn root_files_have_modules_beside_them(
    files: Files,
    root: Seq<char>,
    d: Seq<char>,
    own: Seq<char>,
    name: Seq<char>,
)
    requires
        leads_on(files.home),
        is_plain_dir(d),
        own == "lib.rs"@ || own == "main.rs"@ || own == "mod.rs"@,
        is_module(name),
    ensures
        ({
            let direct = in_dir(d, name + ".rs"@);
            let nested = in_dir(d, name + "/mod.rs"@);
            let found = rust_target(files, root, "mod:"@ + name, in_dir(d, own));
            &&& has_file(files, direct) ==> found == Some(direct)
            &&& has_nothing(files, direct) && has_file(files, nested) ==> found == Some(nested)
            &&& has_nothing(files, direct) && has_nothing(files, nested) ==> found is None
        }),
{
    let file = in_dir(d, own);
    reveal_strlit(".rs");
    reveal_strlit("lib");
    reveal_strlit("main");
    reveal_strlit("mod");
    reveal_strlit("lib.rs");
    reveal_strlit("main.rs");
    reveal_strlit("mod.rs");
    reveal_strlit("/mod.rs");
    let short = if own == "lib.rs"@ {
        "lib"@
    } else if own == "main.rs"@ {
        "main"@
    } else {
        "mod"@
    };
    assert(own =~= short + ".rs"@);
    stem_of_rust_file(short);
    modules_are_parts(short);
    mod_specifier(files, root, name, file);
    in_dir_is_below(d, own);
    assert(components(d).push(own).drop_last() =~= components(d));
    modules_in(files, d, name, components(d));
    assert(in_dir(in_dir(d, name), "mod.rs"@) =~= in_dir(d, name + "/mod.rs"@));
}

/// A module that any other Rust file declares stands in the directory that is named after the file.
pub proof fn other_files_have_modules_below_them(
    files: Files,
    root: Seq<char>,
    d: Seq<char>,
    own: Seq<char>,
    name: Seq<char>,
)
    requires
        leads_on(files.home),
        is_plain_dir(d),
        is_module(own),
        own != "lib"@,
        own != "main"@,
        own != "mod"@,
        is_module(name),
    ensures
        ({
            let direct = in_dir(d, own + "/"@ + name + ".rs"@);
            let nested = in_dir(d, own + "/"@ + name + "/mod.rs"@);
            let found = rust_target(files, root, "mod:"@ + name, in_dir(d, own + ".rs"@));
            &&& has_file(files, direct) ==> found == Some(direct)
            &&& has_nothing(files, direct) && has_file(files, nested) ==> found == Some(nested)
            &&& has_nothing(files, direct) && has_nothing(files, nested) ==> found is None
        }),
{
    let file = in_dir(d, own + ".rs"@);
    reveal_strlit("/");
    reveal_strlit("mod.rs");
    reveal_strlit("/mod.rs");
    stem_of_rust_file(own);
    modules_are_parts(own);
    mod_specifier(files, root, name, file);
    in_dir_is_below(d, own + ".rs"@);
    in_dir_is_below(d, own);
    assert(components(d).push(own + ".rs"@).drop_last() =~= components(d));
    let w = in_dir(d, own);
    modules_in(files, w, name, components(w));
    assert(in_dir(w, name + ".rs"@) =~= in_dir(d, own + "/"@ + name + ".rs"@));
    assert(in_dir(in_dir(w, name), "mod.rs"@) =~= in_dir(d, own + "/"@ + name + "/mod.rs"@));
}

} // verus!
