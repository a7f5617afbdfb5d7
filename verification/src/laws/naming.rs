//! Which tests belong to a changed file by their names and by their directories.
use vstd::prelude::*;

use crate::affected::{
    below, by_naming, by_proximity, entries_in, existing, is_test, naming_candidates, named_after,
    named_in_test_dirs, spelled, spot_of, test_dirs, test_suffixes, tests_among, tests_in,
    tests_nearby, Spot,
};
use crate::laws::modules::{
    has_dir, has_file, in_dir, in_dir_is_below, is_module, is_one_part, is_plain_dir, leads_on,
    lookups_find_files, no_components, straight_paths_lead_there,
};
use crate::laws::test_files::{endings_are_listed, is_test_ending};
use crate::laws::test_names::split_of_joined;
use crate::paths::{
    components, dot, dot_dot, extension, file_name, is_named, named_end, named_pieces, named_start,
    parent, path_of, spelled_parent, stem,
};
use crate::text::{last_index_of, listed, split_ends_in_piece, split_on};
use crate::tree::{is_within, leads_anywhere, leads_to_dir, place, shelf, Files};

verus! {

/// The names of the directories next to a source file that hold its tests.
pub open spec fn is_test_dir(t: Seq<char>) -> bool {
    t == "__tests__"@ || t == "tests"@ || t == "test"@ || t == "spec"@
}

/// `e` is an extension: a single component without a dot.
pub open spec fn is_extension(e: Seq<char>) -> bool {
    is_module(e)
}

// ---------------------------------------------------------------------------------------------
// Plain paths
// ---------------------------------------------------------------------------------------------
proof fn pieces_hold_no_slash(s: Seq<char>)
    ensures
        split_on(s, '/').len() > 0,
        forall|k: int, i: int|
            0 <= k < split_on(s, '/').len() && 0 <= i < split_on(s, '/')[k].len()
                ==> #[trigger] split_on(s, '/')[k][i] != '/',
    decreases s.len(),
{
    if s.len() > 0 {
        let q = split_on(s.drop_last(), '/');
        let p = split_on(s, '/');
        pieces_hold_no_slash(s.drop_last());
        assert forall|k: int, i: int| 0 <= k < p.len() && 0 <= i < p[k].len() implies #[trigger] p[k][i]
            != '/' by {
            if k < q.len() - 1 {
                assert(p[k] == q[k]);
                assert(q[k][i] != '/');
            } else if k == q.len() - 1 {
                if s.last() == '/' {
                    assert(p[k] == q[k]);
                    assert(q[k][i] != '/');
                } else if i < q[k].len() {
                    assert(p[k][i] == q[k][i]);
                }
            }
        }
    }
}

proof fn named_are_pieces(pieces: Seq<Seq<char>>)
    ensures
        forall|k: int|
            0 <= k < named_pieces(pieces).len() ==> is_named(#[trigger] named_pieces(pieces)[k])
                && pieces.contains(named_pieces(pieces)[k]),
    decreases pieces.len(),
{
    if pieces.len() > 0 {
        let rest = pieces.drop_last();
        named_are_pieces(rest);
        let a = named_pieces(rest);
        let b = named_pieces(pieces);
        assert forall|k: int| 0 <= k < b.len() implies is_named(#[trigger] b[k]) && pieces.contains(
            b[k],
        ) by {
            if k < a.len() {
                assert(b[k] == a[k]);
                let j = choose|j: int| 0 <= j < rest.len() && rest[j] == a[k];
                assert(pieces[j] == b[k]);
            } else {
                assert(pieces[pieces.len() - 1] == b[k]);
            }
        }
    }
}

proof fn components_are_parts(s: Seq<char>, k: int)
    requires
        0 <= k < components(s).len(),
    ensures
        is_named(components(s)[k]),
        !components(s)[k].contains('/'),
{
    let p = split_on(s, '/');
    named_are_pieces(p);
    pieces_hold_no_slash(s);
    let c = components(s)[k];
    assert(p.contains(c));
    let j = choose|j: int| 0 <= j < p.len() && p[j] == c;
    if c.contains('/') {
        let i = choose|i: int| 0 <= i < c.len() && c[i] == '/';
        assert(p[j][i] != '/');
    }
}

proof fn pieces_of_path(parts: Seq<Seq<char>>)
    requires
        parts.len() > 0,
        forall|k: int| 0 <= k < parts.len() ==> !(#[trigger] parts[k]).contains('/'),
    ensures
        split_on(path_of(parts), '/') == parts,
    decreases parts.len(),
{
    let x = parts.last();
    assert(!parts[parts.len() - 1].contains('/'));
    let rest = parts.drop_last();
    assert(rest.push(x) =~= parts);
    if parts.len() == 1 {
        assert forall|k: int| 0 <= k < x.len() implies #[trigger] x[k] != '/' by {
            assert(x.contains(x[k]));
        }
        crate::laws::modules::one_piece(x);
        assert(path_of(parts) == x);
        assert(seq![x] =~= parts);
    } else {
        assert forall|k: int| 0 <= k < rest.len() implies !(#[trigger] rest[k]).contains('/') by {
            assert(rest[k] == parts[k]);
        }
        pieces_of_path(rest);
        split_ends_in_piece(path_of(rest), x, '/');
        assert(path_of(parts) =~= path_of(rest).push('/') + x);
    }
}

proof fn plain_pieces(d: Seq<char>)
    requires
        is_plain_dir(d),
        d.len() > 0,
    ensures
        split_on(d, '/') == components(d),
        components(d).len() > 0,
        d[0] != '/',
{
    let parts = components(d);
    if parts.len() == 0 {
        assert(path_of(parts) =~= Seq::empty());
    }
    assert forall|k: int| 0 <= k < parts.len() implies !(#[trigger] parts[k]).contains('/') by {
        components_are_parts(d, k);
    }
    pieces_of_path(parts);
    if d[0] == '/' {
        let head = Seq::<char>::empty();
        split_of_joined(head, d.skip(1));
        assert(head + seq!['/'] + d.skip(1) =~= d);
        assert(split_on(head, '/') == seq![head]);
        assert(split_on(d, '/')[0] == head);
        components_are_parts(d, 0);
    }
}

/// How the changed file `x` in the directory `d` stands.
proof fn plain_standing(files: Files, d: Seq<char>, x: Seq<char>)
    requires
        is_plain_dir(d),
        is_one_part(x),
    ensures
        ({
            let q = components(d).push(x);
            &&& below(files, in_dir(d, x)) == Some(q)
            &&& named_pieces(q) == q
            &&& spot_of(q) == (Spot { dir: components(d), text: d })
        }),
{
    let path = in_dir(d, x);
    let q = components(d).push(x);
    in_dir_is_below(d, x);
    crate::laws::modules::one_piece(x);
    if d.len() == 0 {
        no_components();
        assert(d =~= Seq::empty());
        assert(q =~= seq![x]);
        assert(path[0] != '/');
    } else {
        plain_pieces(d);
        split_of_joined(d, x);
        assert(split_on(d, '/') + seq![x] =~= q);
        assert(path[0] == d[0]);
    }
    assert(split_on(path, '/') == q);
    assert(q.drop_last() =~= components(d));
    let n = q.len() as int;
    assert(is_named(q[n - 1]));
    assert(named_end(q, 0, n) == n);
    if n > 1 {
        components_are_parts(d, n - 2);
        components_are_parts(d, 0);
        assert(q[n - 2] == components(d)[n - 2] && q[0] == components(d)[0]);
        assert(named_end(q, 0, n - 1) == n - 1);
        assert(named_start(q, 0) == 0);
        assert(q.subrange(0, n - 1) =~= components(d));
    } else {
        assert(components(d) =~= Seq::empty());
        assert(path_of(components(d)) =~= Seq::empty());
        assert(named_end(q, 0, n - 1) == 0);
        assert(named_start(q, 0) == 0);
    }
    assert(spelled_parent(q) =~= d);
}

proof fn path_of_one(x: Seq<char>)
    ensures
        path_of(seq![x]) == x,
{
}

proof fn path_of_two(t: Seq<char>, x: Seq<char>)
    ensures
        path_of(seq![t, x]) == t + seq!['/'] + x,
{
    assert(seq![t, x].drop_last() =~= seq![t]);
    path_of_one(t);
}

proof fn plain_spelling(d: Seq<char>, t: Seq<char>, x: Seq<char>)
    requires
        is_plain_dir(d),
        is_one_part(t),
        is_one_part(x),
    ensures
        ({
            let spot = Spot { dir: components(d), text: d };
            &&& spelled(spot, components(d).push(x)) == in_dir(d, x)
            &&& spelled(spot, components(d).push(t).push(x)) == in_dir(in_dir(d, t), x)
        }),
{
    let c = components(d);
    reveal_strlit("/");
    assert(c.push(x).skip(c.len() as int) =~= seq![x]);
    assert(c.push(t).push(x).skip(c.len() as int) =~= seq![t, x]);
    path_of_one(x);
    path_of_two(t, x);
    assert("/"@ =~= seq!['/']);
    let spot = Spot { dir: c, text: d };
    assert(spelled(spot, c.push(x)) =~= in_dir(d, x));
    assert(spelled(spot, c.push(t).push(x)) =~= in_dir(in_dir(d, t), x));
}

// ---------------------------------------------------------------------------------------------
// By name
// ---------------------------------------------------------------------------------------------
proof fn existing_are_listed(
    files: Files,
    spot: Spot,
    list: Seq<Seq<Seq<char>>>,
    n: int,
    c: Seq<Seq<char>>,
)
    requires
        0 <= n <= list.len(),
        list.take(n).contains(c),
        leads_anywhere(files, c),
    ensures
        listed(existing(files, spot, list, n), spelled(spot, c)),
    decreases n,
{
    let k = choose|k: int| 0 <= k < n && list.take(n)[k] == c;
    let all = existing(files, spot, list, n);
    let rest = existing(files, spot, list, n - 1);
    if k < n - 1 {
        assert(list.take(n - 1)[k] == c);
        existing_are_listed(files, spot, list, n - 1, c);
        let i = choose|i: int| 0 <= i < rest.len() && #[trigger] rest[i] == spelled(spot, c);
        assert(all[i] == rest[i]);
    } else {
        assert(all[rest.len() as int] == spelled(spot, c));
    }
}

proof fn test_dir_numbers(t: Seq<char>) -> (d: int)
    requires
        is_test_dir(t),
    ensures
        0 <= d < test_dirs().len(),
        test_dirs()[d] == t,
        is_one_part(t),
{
    reveal_strlit("__tests__");
    reveal_strlit("tests");
    reveal_strlit("test");
    reveal_strlit("spec");
    assert(dot()[0] == '.' && dot_dot()[0] == '.');
    assert(t[0] == '_' || t[0] == 't' || t[0] == 's');
    if t == "__tests__"@ {
        0
    } else if t == "tests"@ {
        1
    } else if t == "test"@ {
        2
    } else {
        3
    }
}

proof fn dirs_are_searched(
    files: Files,
    dir: Seq<Seq<char>>,
    base: Seq<char>,
    n: int,
    j: int,
    k: int,
)
    requires
        0 <= j < n,
        0 <= k < test_suffixes().len(),
        leads_to_dir(files, dir.push(test_dirs()[j])),
    ensures
        named_in_test_dirs(files, dir, base, n).contains(
            dir.push(test_dirs()[j]).push(base + test_suffixes()[k]),
        ),
    decreases n,
{
    let c = dir.push(test_dirs()[j]).push(base + test_suffixes()[k]);
    let rest = named_in_test_dirs(files, dir, base, n - 1);
    let all = named_in_test_dirs(files, dir, base, n);
    if j < n - 1 {
        dirs_are_searched(files, dir, base, n - 1, j, k);
        let i = choose|i: int| 0 <= i < rest.len() && rest[i] == c;
        assert(all[i] == c);
    } else {
        let more = named_after(dir.push(test_dirs()[j]), base);
        assert(more[k] == c);
        assert(all[rest.len() + k] == c);
    }
}

/// What a name with an extension is made of.
pub proof fn stem_and_extension(s: Seq<char>, e: Seq<char>)
    requires
        is_module(s),
        is_extension(e),
    ensures
        stem(s + seq!['.'] + e) == s,
        extension(s + seq!['.'] + e) == Some(e),
        is_one_part(s + seq!['.'] + e),
{
    let x = s + seq!['.'] + e;
    let n = s.len() as int;
    dot_is_last(x, n, x.len() as int);
    assert(x.take(n) =~= s);
    assert(x.skip(n + 1) =~= e);
    assert(x[0] == s[0] && s[0] != '.');
    assert(dot()[0] == '.' && dot_dot()[0] == '.');
    assert forall|i: int| 0 <= i < x.len() implies #[trigger] x[i] != '/' by {
        if i < n {
            assert(x[i] == s[i]);
        } else if i > n {
            assert(x[i] == e[i - n - 1]);
        }
    }
}

proof fn dot_is_last(x: Seq<char>, n: int, to: int)
    requires
        0 <= n < to <= x.len(),
        x[n] == '.',
        forall|k: int| n < k < x.len() ==> #[trigger] x[k] != '.',
    ensures
        last_index_of(x, '.', to) == Some(n),
    decreases to,
{
    if to > n + 1 {
        dot_is_last(x, n, to - 1);
    }
}

proof fn with_ending_is_one_part(s: Seq<char>, ending: Seq<char>)
    requires
        is_module(s),
        is_test_ending(ending),
    ensures
        is_one_part(s + ending),
{
    reveal_strlit(".test.ts");
    reveal_strlit(".test.tsx");
    reveal_strlit(".test.js");
    reveal_strlit(".test.jsx");
    reveal_strlit(".test.mjs");
    reveal_strlit(".spec.ts");
    reveal_strlit(".spec.tsx");
    reveal_strlit(".spec.js");
    reveal_strlit(".spec.jsx");
    reveal_strlit(".spec.mjs");
    reveal_strlit("_test.go");
    reveal_strlit("_test.rs");
    reveal_strlit("_test.py");
    let x = s + ending;
    assert(x[0] == s[0] && s[0] != '.');
    assert(dot()[0] == '.' && dot_dot()[0] == '.');
    assert forall|i: int| 0 <= i < x.len() implies #[trigger] x[i] != '/' by {
        if i < s.len() {
            assert(x[i] == s[i]);
        } else {
            assert(x[i] == ending[i - s.len()]);
        }
    }
}

/// A test that is named after the changed file `s.e` is found: beside it, and in a directory of
/// tests beside it.
pub proof fn named_tests_are_found(
    files: Files,
    d: Seq<char>,
    s: Seq<char>,
    e: Seq<char>,
    t: Seq<char>,
    ending: Seq<char>,
)
    requires
        leads_on(files.home),
        is_plain_dir(d),
        is_module(s),
        is_extension(e),
        is_test_dir(t),
        is_test_ending(ending),
    ensures
        ({
            let found = by_naming(files, in_dir(d, s + seq!['.'] + e));
            let beside = in_dir(d, s + ending);
            let within = in_dir(in_dir(d, t), s + ending);
            &&& has_file(files, beside) ==> listed(found, beside)
            &&& has_dir(files, in_dir(d, t)) && has_file(files, within) ==> listed(found, within)
        }),
{
    let x = s + seq!['.'] + e;
    stem_and_extension(s, e);
    with_ending_is_one_part(s, ending);
    plain_standing(files, d, x);
    let k = endings_are_listed(ending);
    let j = test_dir_numbers(t);
    let c = components(d);
    let q = c.push(x);
    let spot = Spot { dir: c, text: d };
    let list = naming_candidates(files, c, x);
    let n = list.len() as int;
    assert(q.last() == x);
    assert(file_name(q) == Some(x));
    assert(list.take(n) =~= list);
    plain_spelling(d, t, s + ending);
    in_dir_is_below(d, s + ending);
    in_dir_is_below(d, t);
    in_dir_is_below(in_dir(d, t), s + ending);
    let y = c.push(s + ending);
    lookups_find_files(files, y);
    let first = named_after(c, s);
    assert(first[k] == y);
    assert(list[k] == y);
    if has_file(files, in_dir(d, s + ending)) {
        existing_are_listed(files, spot, list, n, y);
    }
    let z = c.push(t).push(s + ending);
    lookups_find_files(files, c.push(t));
    lookups_find_files(files, z);
    if has_dir(files, in_dir(d, t)) && has_file(files, in_dir(in_dir(d, t), s + ending)) {
        dirs_are_searched(files, c, s, test_dirs().len() as int, j, k);
        let more = named_in_test_dirs(files, c, s, test_dirs().len() as int);
        let i = choose|i: int| 0 <= i < more.len() && more[i] == z;
        assert(list[n - more.len() + i] == z);
        existing_are_listed(files, spot, list, n, z);
    }
}

/// The test of a Python module may also be called `test_` and the name of the module.
pub proof fn python_tests_are_found(files: Files, d: Seq<char>, s: Seq<char>)
    requires
        leads_on(files.home),
        is_plain_dir(d),
        is_module(s),
        has_file(files, in_dir(d, "test_"@ + s + ".py"@)),
    ensures
        listed(
            by_naming(files, in_dir(d, s + ".py"@)),
            in_dir(d, "test_"@ + s + ".py"@),
        ),
{
    reveal_strlit("py");
    reveal_strlit(".py");
    reveal_strlit("test_");
    let e = "py"@;
    let x = s + seq!['.'] + e;
    assert(x =~= s + ".py"@);
    assert(is_module(e));
    stem_and_extension(s, e);
    plain_standing(files, d, x);
    let c = components(d);
    let spot = Spot { dir: c, text: d };
    let list = naming_candidates(files, c, x);
    let n = list.len() as int;
    assert(c.push(x).last() == x);
    let name = "test_"@ + s + ".py"@;
    assert(name[0] == 't');
    assert(dot()[0] == '.' && dot_dot()[0] == '.');
    assert forall|i: int| 0 <= i < name.len() implies #[trigger] name[i] != '/' by {
        if 5 <= i < 5 + s.len() {
            assert(name[i] == s[i - 5]);
        }
    }
    let y = c.push(name);
    in_dir_is_below(d, name);
    plain_spelling(d, name, name);
    lookups_find_files(files, y);
    assert(list[13] == y);
    assert(list.take(n) =~= list);
    existing_are_listed(files, spot, list, n, y);
}

// ---------------------------------------------------------------------------------------------
// By directory
// ---------------------------------------------------------------------------------------------
proof fn entries_are_listed(files: Files, at: Seq<Seq<char>>, n: int, i: int)
    requires
        0 <= i < n <= shelf(files, at).len(),
        components(shelf(files, at)[i].path@).len() > 0,
        parent(components(shelf(files, at)[i].path@)) == place(files, at),
    ensures
        entries_in(files, at, n).contains(i),
    decreases n,
{
    let rest = entries_in(files, at, n - 1);
    let all = entries_in(files, at, n);
    if i < n - 1 {
        entries_are_listed(files, at, n - 1, i);
        let k = choose|k: int| 0 <= k < rest.len() && rest[k] == i;
        assert(all[k] == i);
    } else {
        assert(all[rest.len() as int] == i);
    }
}

proof fn entries_are_few(files: Files, at: Seq<Seq<char>>, n: int)
    requires
        0 <= n,
    ensures
        entries_in(files, at, n).len() <= n,
    decreases n,
{
    if n > 0 {
        entries_are_few(files, at, n - 1);
    }
}

proof fn tests_are_among(files: Files, at: Seq<Seq<char>>, spot: Spot, list: Seq<int>, dir: Seq<
    Seq<char>,
>, n: int, k: int)
    requires
        0 <= k < n <= list.len(),
        !shelf(files, at)[list[k]].is_dir,
        is_test(components(shelf(files, at)[list[k]].path@).last()),
    ensures
        listed(
            tests_among(shelf(files, at), spot, list, dir, n),
            spelled(spot, dir.push(components(shelf(files, at)[list[k]].path@).last())),
        ),
    decreases n,
{
    let entries = shelf(files, at);
    let rest = tests_among(entries, spot, list, dir, n - 1);
    let all = tests_among(entries, spot, list, dir, n);
    let want = spelled(spot, dir.push(components(entries[list[k]].path@).last()));
    if k < n - 1 {
        tests_are_among(files, at, spot, list, dir, n - 1, k);
        let i = choose|i: int| 0 <= i < rest.len() && #[trigger] rest[i] == want;
        assert(all[i] == rest[i]);
    } else {
        assert(all[rest.len() as int] == want);
    }
}

proof fn nearby_holds(files: Files, spot: Spot, n: int, j: int, x: Seq<char>)
    requires
        0 <= j < n,
        listed(tests_in(files, spot, spot.dir.push(test_dirs()[j])), x),
    ensures
        listed(tests_nearby(files, spot, n), x),
    decreases n,
{
    let rest = tests_nearby(files, spot, n - 1);
    let last = tests_in(files, spot, spot.dir.push(test_dirs()[n - 1]));
    let all = tests_nearby(files, spot, n);
    if j < n - 1 {
        nearby_holds(files, spot, n - 1, j, x);
        let i = choose|i: int| 0 <= i < rest.len() && #[trigger] rest[i] == x;
        assert(all[i] == x);
    } else {
        let i = choose|i: int| 0 <= i < last.len() && #[trigger] last[i] == x;
        assert(all[rest.len() + i] == x);
    }
}

/// Each test file in a directory of tests next to the changed file is found, as long as no more
/// than a thousand entries have to be looked at.
pub proof fn tests_nearby_are_found(
    files: Files,
    d: Seq<char>,
    own: Seq<char>,
    t: Seq<char>,
    x: Seq<char>,
    i: int,
)
    requires
        leads_on(files.home),
        is_plain_dir(d),
        is_one_part(own),
        is_test_dir(t),
        has_dir(files, in_dir(d, t)),
        is_one_part(x),
        is_test(x),
        files.entries.len() <= 1000,
        0 <= i < files.entries.len(),
        files.entries[i].path@ == in_dir(in_dir(d, t), x),
        !files.entries[i].is_dir,
    ensures
        listed(by_proximity(files, in_dir(d, own)), in_dir(in_dir(d, t), x)),
{
    plain_standing(files, d, own);
    let j = test_dir_numbers(t);
    let c = components(d);
    let spot = Spot { dir: c, text: d };
    let dir = c.push(t);
    in_dir_is_below(d, t);
    in_dir_is_below(in_dir(d, t), x);
    plain_spelling(d, t, x);
    lookups_find_files(files, dir);
    let at = files.home + dir;
    assert forall|k: int| 0 <= k < at.len() implies #[trigger] at[k] != dot_dot() by {
        if k < files.home.len() {
            assert(at[k] == files.home[k]);
        } else {
            assert(at[k] == dir[k - files.home.len()]);
        }
    }
    straight_paths_lead_there(files, at);
    assert(at.take(files.home.len() as int) =~= files.home);
    assert(at.skip(files.home.len() as int) =~= dir);
    assert(is_within(files, at));
    let n = files.entries.len() as int;
    assert(dir.push(x).drop_last() =~= dir);
    entries_are_listed(files, at, n, i);
    entries_are_few(files, at, n);
    let list = entries_in(files, at, n);
    let k = choose|k: int| 0 <= k < list.len() && list[k] == i;
    tests_are_among(files, at, spot, list, dir, list.len() as int, k);
    nearby_holds(files, spot, test_dirs().len() as int, j, in_dir(in_dir(d, t), x));
}

} // verus!
