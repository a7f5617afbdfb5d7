//! Where the imports of JavaScript and TypeScript lead.
use vstd::prelude::*;

use crate::imports::typescript::{
    some_index_file, typescript_extensions, typescript_file, typescript_target, with_extension,
    with_some_extension,
};
use crate::laws::modules::{
    has_dir, has_file, has_nothing, in_dir, in_dir_is_below, is_module, is_one_part, is_plain_dir,
    leads_on, lookups_find_files, modules_are_parts, no_components, one_component,
    one_piece, straight_paths_lead_there,
};
use crate::laws::test_names::components_of_joined;
use crate::paths::{components, dot, dot_dot, file_name, named_pieces, path_of, stem};
use crate::text::{last_index_of, starts_with, trim_start_by};
use crate::tree::{dir_at, file_of, located, Files};

verus! {

/// The extensions that are tried, in order.
pub open spec fn script_extensions() -> Seq<Seq<char>> {
    seq!["ts"@, "tsx"@, "js"@, "jsx"@, "mjs"@, "cjs"@, "mts"@, "cts"@]
}

/// `raw` with extension number `k`.
pub open spec fn with_ext(raw: Seq<char>, k: int) -> Seq<char> {
    raw + "."@ + script_extensions()[k]
}

/// The index file of the directory `raw` with extension number `k`.
pub open spec fn index_of_dir(raw: Seq<char>, k: int) -> Seq<char> {
    raw + "/index."@ + script_extensions()[k]
}

/// `found` is what an import of the path `raw` leads to: `raw` itself, or `raw` with the first
/// extension with which it exists, or the index file of the directory `raw` with the first such
/// extension.
pub open spec fn is_script_target(files: Files, raw: Seq<char>, found: Option<Seq<char>>) -> bool {
    let no_file = has_nothing(files, raw) || has_dir(files, raw);
    &&& has_file(files, raw) ==> found == Some(raw)
    &&& forall|k: int|
        0 <= k < 8 && no_file && has_file(files, #[trigger] with_ext(raw, k)) && (forall|j: int|
            0 <= j < k ==> has_nothing(files, #[trigger] with_ext(raw, j))) ==> found == Some(
            with_ext(raw, k),
        )
    &&& forall|k: int|
        0 <= k < 8 && has_dir(files, raw) && has_file(files, #[trigger] index_of_dir(raw, k)) && (
        forall|j: int| 0 <= j < 8 ==> has_nothing(files, #[trigger] with_ext(raw, j))) && (forall|
            j: int,
        |
            0 <= j < k ==> has_nothing(files, #[trigger] index_of_dir(raw, j))) ==> found == Some(
            index_of_dir(raw, k),
        )
    &&& has_nothing(files, raw) && (forall|j: int|
        0 <= j < 8 ==> has_nothing(files, #[trigger] with_ext(raw, j))) ==> found is None
}

// ---------------------------------------------------------------------------------------------
// Names
// ---------------------------------------------------------------------------------------------
proof fn no_dot_found(s: Seq<char>, to: int)
    requires
        forall|k: int| 0 <= k < s.len() ==> #[trigger] s[k] != '.',
    ensures
        last_index_of(s, '.', to) is None,
    decreases to,
{
    if 0 < to <= s.len() {
        assert(s[to - 1] != '.');
        no_dot_found(s, to - 1);
    }
}

proof fn extensions_are_those()
    ensures
        typescript_extensions() == script_extensions(),
{
    assert(typescript_extensions() =~= script_extensions());
}

proof fn extension_is_plain(k: int)
    requires
        0 <= k < 8,
    ensures
        script_extensions()[k].len() > 0,
        forall|i: int|
            0 <= i < script_extensions()[k].len() ==> #[trigger] script_extensions()[k][i] != '/',
{
    reveal_strlit("ts");
    reveal_strlit("tsx");
    reveal_strlit("js");
    reveal_strlit("jsx");
    reveal_strlit("mjs");
    reveal_strlit("cjs");
    reveal_strlit("mts");
    reveal_strlit("cts");
}

proof fn names_with_extensions(n: Seq<char>, k: int)
    requires
        is_module(n),
        0 <= k < 8,
    ensures
        is_one_part(n + seq!['.'] + script_extensions()[k]),
        is_one_part("index."@ + script_extensions()[k]),
{
    extension_is_plain(k);
    reveal_strlit("index.");
    let e = script_extensions()[k];
    let x = n + seq!['.'] + e;
    let y = "index."@ + e;
    assert(n[0] != '.');
    assert(x[0] == n[0] && y[0] == 'i');
    assert(dot()[0] == '.' && dot_dot()[0] == '.');
    assert forall|i: int| 0 <= i < x.len() implies #[trigger] x[i] != '/' by {
        if i < n.len() {
            assert(x[i] == n[i]);
        } else if i > n.len() {
            assert(x[i] == e[i - n.len() - 1]);
        }
    }
    assert forall|i: int| 0 <= i < y.len() implies #[trigger] y[i] != '/' by {
        if i >= 6 {
            assert(y[i] == e[i - 6]);
        }
    }
}

// ---------------------------------------------------------------------------------------------
// Lookups
// ---------------------------------------------------------------------------------------------
proof fn extension_lookup(files: Files, d: Seq<char>, n: Seq<char>, k: int)
    requires
        leads_on(files.home),
        is_plain_dir(d),
        is_module(n),
        0 <= k < 8,
    ensures
        ({
            let raw = files.home + components(d).push(n);
            let path = with_ext(in_dir(d, n), k);
            let found = file_of(files, with_extension(raw, typescript_extensions()[k]));
            &&& has_file(files, path) ==> found == Some(path)
            &&& has_nothing(files, path) ==> found is None
        }),
{
    extensions_are_those();
    modules_are_parts(n);
    names_with_extensions(n, k);
    no_dot_found(n, n.len() as int);
    reveal_strlit(".");
    let x = n + seq!['.'] + script_extensions()[k];
    let raw = files.home + components(d).push(n);
    in_dir_is_below(d, x);
    lookups_find_files(files, components(d).push(x));
    assert(raw.last() == n);
    assert(file_name(raw) == Some(n));
    assert(raw.drop_last().push(x) =~= files.home + components(d).push(x));
    assert(with_ext(in_dir(d, n), k) =~= in_dir(d, x));
}

proof fn index_lookup(files: Files, d: Seq<char>, n: Seq<char>, k: int)
    requires
        leads_on(files.home),
        is_plain_dir(d),
        is_module(n),
        0 <= k < 8,
    ensures
        ({
            let raw = files.home + components(d).push(n);
            let path = index_of_dir(in_dir(d, n), k);
            let found = file_of(files, raw.push("index."@ + typescript_extensions()[k]));
            &&& has_file(files, path) ==> found == Some(path)
            &&& has_nothing(files, path) ==> found is None
        }),
{
    extensions_are_those();
    modules_are_parts(n);
    names_with_extensions(n, k);
    reveal_strlit("index.");
    reveal_strlit("/index.");
    let x = "index."@ + script_extensions()[k];
    let raw = files.home + components(d).push(n);
    in_dir_is_below(d, n);
    in_dir_is_below(in_dir(d, n), x);
    lookups_find_files(files, components(d).push(n).push(x));
    assert(raw.push(x) =~= files.home + components(d).push(n).push(x));
    assert(index_of_dir(in_dir(d, n), k) =~= in_dir(in_dir(d, n), x));
}

proof fn first_extension(files: Files, d: Seq<char>, n: Seq<char>, j: int, k: int)
    requires
        leads_on(files.home),
        is_plain_dir(d),
        is_module(n),
        0 <= j <= k <= 8,
        forall|i: int| j <= i < k ==> has_nothing(files, #[trigger] with_ext(in_dir(d, n), i)),
        k < 8 ==> has_file(files, with_ext(in_dir(d, n), k)),
    ensures
        with_some_extension(files, files.home + components(d).push(n), j) == if k < 8 {
            Some(with_ext(in_dir(d, n), k))
        } else {
            None
        },
    decreases k - j,
{
    if j < 8 {
        extension_lookup(files, d, n, j);
        if j < k {
            assert(has_nothing(files, with_ext(in_dir(d, n), j)));
            first_extension(files, d, n, j + 1, k);
        }
    }
}

proof fn first_index(files: Files, d: Seq<char>, n: Seq<char>, j: int, k: int)
    requires
        leads_on(files.home),
        is_plain_dir(d),
        is_module(n),
        0 <= j <= k < 8,
        forall|i: int| j <= i < k ==> has_nothing(files, #[trigger] index_of_dir(in_dir(d, n), i)),
        has_file(files, index_of_dir(in_dir(d, n), k)),
    ensures
        some_index_file(files, files.home + components(d).push(n), j) == Some(
            index_of_dir(in_dir(d, n), k),
        ),
    decreases k - j,
{
    index_lookup(files, d, n, j);
    if j < k {
        assert(has_nothing(files, index_of_dir(in_dir(d, n), j)));
        first_index(files, d, n, j + 1, k);
    }
}

proof fn script_is_found(files: Files, d: Seq<char>, n: Seq<char>)
    requires
        leads_on(files.home),
        is_plain_dir(d),
        is_module(n),
    ensures
        is_script_target(
            files,
            in_dir(d, n),
            typescript_file(files, files.home + components(d).push(n)),
        ),
{
    let raw = in_dir(d, n);
    let parts = files.home + components(d).push(n);
    let found = typescript_file(files, parts);
    modules_are_parts(n);
    in_dir_is_below(d, n);
    lookups_find_files(files, components(d).push(n));
    let no_file = has_nothing(files, raw) || has_dir(files, raw);
    assert forall|k: int|
        0 <= k < 8 && no_file && has_file(files, #[trigger] with_ext(raw, k)) && (forall|j: int|
            0 <= j < k ==> has_nothing(files, #[trigger] with_ext(raw, j))) implies found == Some(
        with_ext(raw, k),
    ) by {
        first_extension(files, d, n, 0, k);
    }
    assert forall|k: int|
        0 <= k < 8 && has_dir(files, raw) && has_file(files, #[trigger] index_of_dir(raw, k)) && (
        forall|j: int| 0 <= j < 8 ==> has_nothing(files, #[trigger] with_ext(raw, j))) && (forall|
            j: int,
        |
            0 <= j < k ==> has_nothing(files, #[trigger] index_of_dir(raw, j))) implies found
        == Some(index_of_dir(raw, k)) by {
        first_extension(files, d, n, 0, 8);
        first_index(files, d, n, 0, k);
    }
    if has_nothing(files, raw) && (forall|j: int|
        0 <= j < 8 ==> has_nothing(files, #[trigger] with_ext(raw, j))) {
        first_extension(files, d, n, 0, 8);
    }
}

// ---------------------------------------------------------------------------------------------
// Specifiers
// ---------------------------------------------------------------------------------------------
proof fn dots_name_nothing()
    ensures
        components(dot()) == Seq::<Seq<char>>::empty(),
{
    let d = dot();
    one_piece(d);
    assert(seq![d].drop_last() =~= Seq::<Seq<char>>::empty());
    assert(named_pieces(seq![d].drop_last()) =~= Seq::<Seq<char>>::empty());
}

proof fn two_dots_lead_back()
    ensures
        components(dot_dot()) == seq![dot_dot()],
{
    let d = dot_dot();
    one_piece(d);
    assert(seq![d].drop_last() =~= Seq::<Seq<char>>::empty());
    assert(named_pieces(seq![d].drop_last()) =~= Seq::<Seq<char>>::empty());
    assert(d.len() == 2 && dot().len() == 1);
    assert(components(d) =~= seq![d]);
}

/// An import of `./n` leads to `n` in the directory of the file that imports it.
pub proof fn relative_imports_lead_beside(files: Files, d: Seq<char>, own: Seq<char>, n: Seq<char>)
    requires
        leads_on(files.home),
        is_plain_dir(d),
        is_one_part(own),
        is_module(n),
    ensures
        is_script_target(
            files,
            in_dir(d, n),
            typescript_target(files, "./"@ + n, in_dir(d, own)),
        ),
{
    reveal_strlit("./");
    reveal_strlit("/");
    let spec = "./"@ + n;
    let set = |c: char| c == '/';
    assert(spec[0] == '.');
    assert(trim_start_by(spec, set) == spec);
    if starts_with(spec, "/"@) {
        assert(spec.subrange(0, 1)[0] == "/"@[0]);
    }
    assert(spec.subrange(0, 2) =~= "./"@);
    modules_are_parts(n);
    one_component(n);
    dots_name_nothing();
    components_of_joined(dot(), n);
    assert(spec =~= dot() + seq!['/'] + n);
    assert(components(spec) =~= seq![n]);
    in_dir_is_below(d, own);
    assert(components(d).push(own).drop_last() =~= components(d));
    assert(files.home + components(d) + seq![n] =~= files.home + components(d).push(n));
    script_is_found(files, d, n);
}

/// An import of `/n` leads to `n` in the root of the project.
pub proof fn rooted_imports_lead_to_the_root(files: Files, file: Seq<char>, n: Seq<char>)
    requires
        leads_on(files.home),
        is_module(n),
    ensures
        is_script_target(files, n, typescript_target(files, "/"@ + n, file)),
{
    reveal_strlit("/");
    let spec = "/"@ + n;
    let set = |c: char| c == '/';
    assert(spec.drop_first() =~= n);
    assert(n[0] != '/');
    assert(trim_start_by(n, set) == n);
    assert(spec[0] == '/');
    assert(trim_start_by(spec, set) == n);
    assert(spec.subrange(0, 1) =~= "/"@);
    modules_are_parts(n);
    one_component(n);
    no_components();
    let none = Seq::<char>::empty();
    assert(path_of(Seq::<Seq<char>>::empty()) =~= none);
    assert(files.home + seq![n] =~= files.home + components(none).push(n));
    script_is_found(files, none, n);
}

/// What follows a step into a directory and back is what follows without it.
proof fn back_again(files: Files, x: Seq<Seq<char>>, e: Seq<char>, rest: Seq<Seq<char>>)
    requires
        leads_on(x),
        e != dot_dot(),
        dir_at(files, x.push(e)),
    ensures
        located(files, x.push(e).push(dot_dot()) + rest) == located(files, x + rest),
    decreases rest.len(),
{
    let way = x.push(e).push(dot_dot()) + rest;
    if rest.len() == 0 {
        assert(way =~= x.push(e).push(dot_dot()));
        assert(way.drop_last() =~= x.push(e));
        assert forall|k: int| 0 <= k < x.push(e).len() implies #[trigger] x.push(e)[k]
            != dot_dot() by {
            if k < x.len() {
                assert(x.push(e)[k] == x[k]);
            }
        }
        straight_paths_lead_there(files, x.push(e));
        straight_paths_lead_there(files, x);
        assert(x.push(e).drop_last() =~= x);
        assert(x + rest =~= x);
    } else {
        back_again(files, x, e, rest.drop_last());
        assert(way.drop_last() =~= x.push(e).push(dot_dot()) + rest.drop_last());
        assert((x + rest).drop_last() =~= x + rest.drop_last());
    }
}

proof fn same_extensions(files: Files, a: Seq<Seq<char>>, b: Seq<Seq<char>>, n: Seq<char>, k: int)
    requires
        forall|rest: Seq<Seq<char>>| #[trigger]
            located(files, a + rest) == located(files, b + rest),
        n != dot_dot(),
    ensures
        with_some_extension(files, a.push(n), k) == with_some_extension(files, b.push(n), k),
        some_index_file(files, a.push(n), k) == some_index_file(files, b.push(n), k),
    decreases typescript_extensions().len() - k,
{
    if 0 <= k < typescript_extensions().len() {
        same_extensions(files, a, b, n, k + 1);
        let e = typescript_extensions()[k];
        let x = stem(n) + seq!['.'] + e;
        assert(a.push(n).drop_last() =~= a && b.push(n).drop_last() =~= b);
        assert(a.push(n).last() == n && b.push(n).last() == n);
        assert(a.push(x) =~= a + seq![x]);
        assert(b.push(x) =~= b + seq![x]);
        let y = "index."@ + e;
        assert(a.push(n).push(y) =~= a + seq![n, y]);
        assert(b.push(n).push(y) =~= b + seq![n, y]);
    }
}

/// An import of `../n` leads to `n` in the directory above that of the file that imports it.
pub proof fn relative_imports_lead_above(
    files: Files,
    d: Seq<char>,
    e: Seq<char>,
    own: Seq<char>,
    n: Seq<char>,
)
    requires
        leads_on(files.home),
        is_plain_dir(d),
        is_one_part(e),
        is_one_part(own),
        is_module(n),
        has_dir(files, in_dir(d, e)),
    ensures
        is_script_target(
            files,
            in_dir(d, n),
            typescript_target(files, "../"@ + n, in_dir(in_dir(d, e), own)),
        ),
{
    reveal_strlit("../");
    reveal_strlit("./");
    reveal_strlit("/");
    let spec = "../"@ + n;
    let set = |c: char| c == '/';
    assert(spec[0] == '.');
    assert(trim_start_by(spec, set) == spec);
    if starts_with(spec, "/"@) {
        assert(spec.subrange(0, 1)[0] == "/"@[0]);
    }
    assert(spec.subrange(0, 3) =~= "../"@);
    modules_are_parts(n);
    one_component(n);
    two_dots_lead_back();
    components_of_joined(dot_dot(), n);
    assert(spec =~= dot_dot() + seq!['/'] + n);
    assert(components(spec) =~= seq![dot_dot(), n]);
    in_dir_is_below(d, e);
    in_dir_is_below(in_dir(d, e), own);
    assert(components(d).push(e).push(own).drop_last() =~= components(d).push(e));
    lookups_find_files(files, components(d).push(e));
    let x = files.home + components(d);
    assert(files.home + components(d).push(e) =~= x.push(e));
    assert forall|k: int| 0 <= k < x.len() implies #[trigger] x[k] != dot_dot() by {
        if k < files.home.len() {
            assert(x[k] == files.home[k]);
        } else {
            assert(x[k] == components(d)[k - files.home.len()]);
        }
    }
    let a = x.push(e).push(dot_dot());
    assert forall|rest: Seq<Seq<char>>| #[trigger] located(files, a + rest) == located(
        files,
        x + rest,
    ) by {
        back_again(files, x, e, rest);
    }
    same_extensions(files, a, x, n, 0);
    assert(a.push(n) =~= a + seq![n]);
    assert(x.push(n) =~= x + seq![n]);
    assert(files.home + components(d).push(e) + seq![dot_dot(), n] =~= a.push(n));
    assert(files.home + components(d).push(n) =~= x.push(n));
    assert(typescript_file(files, a.push(n)) == typescript_file(files, x.push(n)));
    script_is_found(files, d, n);
}

/// Other specifiers name packages, and lead to no file of the project.
pub proof fn bare_imports_lead_nowhere(files: Files, spec: Seq<char>, file: Seq<char>)
    requires
        spec.len() == 0 || (spec[0] != '.' && spec[0] != '/'),
    ensures
        typescript_target(files, spec, file) is None,
{
    reveal_strlit("./");
    reveal_strlit("../");
    reveal_strlit("/");
    if starts_with(spec, "/"@) {
        assert(spec.subrange(0, 1)[0] == '/');
    }
    if starts_with(spec, "./"@) {
        assert(spec.subrange(0, 2)[0] == '.');
    }
    if starts_with(spec, "../"@) {
        assert(spec.subrange(0, 3)[0] == '.');
    }
}

} // verus!
