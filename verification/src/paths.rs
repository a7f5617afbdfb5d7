//! Paths as lists of components, separated by `/`.
use vstd::prelude::*;

use crate::text::{
    chars_of, copy_chars, extend_chars, find_last_char, join, last_index_of, replace_char,
    replace_in, rows, same_chars, slice_of, split_chars, split_on, strip_prefix,
    text_of,
};

verus! {

// ---------------------------------------------------------------------------------------------
// Models
// ---------------------------------------------------------------------------------------------
/// The current directory.
pub open spec fn dot() -> Seq<char> {
    seq!['.']
}

/// The parent directory.
pub open spec fn dot_dot() -> Seq<char> {
    seq!['.', '.']
}

/// The pieces that name something: empty ones and `.` do not.
pub open spec fn named_pieces(pieces: Seq<Seq<char>>) -> Seq<Seq<char>>
    decreases pieces.len(),
{
    if pieces.len() == 0 {
        Seq::empty()
    } else {
        let rest = named_pieces(pieces.drop_last());
        if is_named(pieces.last()) {
            rest.push(pieces.last())
        } else {
            rest
        }
    }
}

/// The components of a path.
pub open spec fn components(path: Seq<char>) -> Seq<Seq<char>> {
    named_pieces(split_on(path, '/'))
}

/// Whether a piece names something.
pub open spec fn is_named(piece: Seq<char>) -> bool {
    piece.len() > 0 && piece != dot()
}

/// The position behind the last of the pieces from `base` to `n` that names something; `base` where
/// none does.
pub open spec fn named_end(pieces: Seq<Seq<char>>, base: int, n: int) -> int
    decreases n,
{
    if n <= base || n <= 0 {
        base
    } else if is_named(pieces[n - 1]) {
        n
    } else {
        named_end(pieces, base, n - 1)
    }
}

/// The position of the first piece from `i` on that names something.
pub open spec fn named_start(pieces: Seq<Seq<char>>, i: int) -> int
    decreases pieces.len() - i,
{
    if i < 0 || i >= pieces.len() || is_named(pieces[i]) {
        i
    } else {
        named_start(pieces, i + 1)
    }
}

/// The pieces behind the first `k` that name something.
pub open spec fn behind(pieces: Seq<Seq<char>>, k: int) -> Seq<Seq<char>>
    decreases pieces.len(),
{
    if k <= 0 || pieces.len() == 0 {
        pieces
    } else if is_named(pieces[0]) {
        behind(pieces.skip(1), k - 1)
    } else {
        behind(pieces.skip(1), k)
    }
}

/// How the directory that holds the last named piece is spelled: all that stands between the first
/// piece and the last one that name something in it.
pub open spec fn spelled_parent(pieces: Seq<Seq<char>>) -> Seq<char> {
    let from = named_start(pieces, 0);
    let to = named_end(pieces, 0, named_end(pieces, 0, pieces.len() as int) - 1);
    if from < to {
        path_of(pieces.subrange(from, to))
    } else {
        Seq::empty()
    }
}

/// How many pieces of a path come before its body: the root of the file system, or a leading `.`.
pub open spec fn lead(path: Seq<char>) -> int {
    if is_absolute(path) || split_on(path, '/')[0] == dot() {
        1
    } else {
        0
    }
}

/// `path` up to its piece `n`.
pub open spec fn cut(path: Seq<char>, n: int) -> Seq<char> {
    if is_absolute(path) && n <= 1 {
        seq!['/']
    } else {
        path_of(split_on(path, '/').take(n))
    }
}

/// The directories above the first `n` pieces of `path`, nearest first, each as `path` spells it.
pub open spec fn ancestors(path: Seq<char>, n: int) -> Seq<Seq<char>>
    decreases n,
{
    let pieces = split_on(path, '/');
    if n <= 0 {
        Seq::empty()
    } else if n <= lead(path) {
        if is_absolute(path) {
            Seq::empty()
        } else {
            seq![Seq::<char>::empty()]
        }
    } else if is_named(pieces[n - 1]) {
        seq![cut(path, named_end(pieces, lead(path), n - 1))] + ancestors(path, n - 1)
    } else {
        ancestors(path, n - 1)
    }
}

/// The path of a list of components.
pub open spec fn path_of(parts: Seq<Seq<char>>) -> Seq<char> {
    join(parts, seq!['/'])
}

/// Whether a path starts at the root of the file system.
pub open spec fn is_absolute(path: Seq<char>) -> bool {
    path.len() > 0 && path[0] == '/'
}

/// The one spelling of a path: single separators, none at the end, and no `.` but at the start.
pub open spec fn tidy(path: Seq<char>) -> Seq<char> {
    let parts = components(path);
    if is_absolute(path) {
        seq!['/'] + path_of(parts)
    } else if split_on(path, '/')[0] == dot() {
        path_of(seq![dot()] + parts)
    } else {
        path_of(parts)
    }
}

/// The name of a file in the import graph: forward slashes, no leading `./`, one spelling.
pub open spec fn canonical(path: Seq<char>) -> Seq<char> {
    let s = replace_char(path, '\\', '/');
    match strip_prefix(s, seq!['.', '/']) {
        Some(rest) => tidy(rest),
        None => tidy(s),
    }
}

/// The file name that a list of components ends in.
pub open spec fn file_name(parts: Seq<Seq<char>>) -> Option<Seq<char>> {
    if parts.len() > 0 && parts.last() != dot_dot() {
        Some(parts.last())
    } else {
        None
    }
}

/// A file name up to its last dot. A dot at the start does not count.
pub open spec fn stem(name: Seq<char>) -> Seq<char> {
    match last_index_of(name, '.', name.len() as int) {
        Some(i) => if i > 0 {
            name.take(i)
        } else {
            name
        },
        None => name,
    }
}

/// What follows the last dot of a file name. A dot at the start does not count.
pub open spec fn extension(name: Seq<char>) -> Option<Seq<char>> {
    match last_index_of(name, '.', name.len() as int) {
        Some(i) => if i > 0 {
            Some(name.skip(i + 1))
        } else {
            None
        },
        None => None,
    }
}

/// The directory that holds the last component.
pub open spec fn parent(parts: Seq<Seq<char>>) -> Seq<Seq<char>> {
    if parts.len() > 0 {
        parts.drop_last()
    } else {
        parts
    }
}

// ---------------------------------------------------------------------------------------------
// Laws
// ---------------------------------------------------------------------------------------------
/// Backslashes and forward slashes name the same file.
pub proof fn canonical_ignores_slash_direction(path: Seq<char>)
    ensures
        canonical(replace_char(path, '\\', '/')) == canonical(path),
{
    assert(replace_char(replace_char(path, '\\', '/'), '\\', '/') =~= replace_char(path, '\\', '/'));
}

// ---------------------------------------------------------------------------------------------
// Executable counterparts
// ---------------------------------------------------------------------------------------------
/// Whether a piece is `.`.
pub fn is_dot(piece: &Vec<char>) -> (r: bool)
    ensures
        r == (piece@ == dot()),
{
    if piece.len() == 1 && piece[0] == '.' {
        assert(piece@ =~= dot());
        true
    } else {
        false
    }
}

/// Whether a piece is `..`.
pub fn is_dot_dot(piece: &Vec<char>) -> (r: bool)
    ensures
        r == (piece@ == dot_dot()),
{
    if piece.len() == 2 && piece[0] == '.' && piece[1] == '.' {
        assert(piece@ =~= dot_dot());
        true
    } else {
        false
    }
}

/// Whether a piece names something.
pub fn names_something(piece: &Vec<char>) -> (r: bool)
    ensures
        r == is_named(piece@),
{
    piece.len() > 0 && !is_dot(piece)
}

/// The position behind the last of the pieces from `base` to `n` that names something.
pub fn end_of_named(pieces: &Vec<Vec<char>>, base: usize, n: usize) -> (r: usize)
    requires
        base <= n <= pieces@.len(),
    ensures
        r == named_end(rows(pieces@), base as int, n as int),
        base <= r <= n,
{
    let mut k: usize = n;
    while k > base && !names_something(&pieces[k - 1])
        invariant
            base <= k <= n <= pieces@.len(),
            named_end(rows(pieces@), base as int, n as int) == named_end(
                rows(pieces@),
                base as int,
                k as int,
            ),
        decreases k,
    {
        assert(rows(pieces@)[k - 1] == pieces@[k - 1]@);
        k -= 1;
    }
    assert(k > base ==> rows(pieces@)[k - 1] == pieces@[k - 1]@);
    k
}

/// The position of the first piece that names something.
pub fn start_of_named(pieces: &Vec<Vec<char>>) -> (r: usize)
    ensures
        r == named_start(rows(pieces@), 0),
        r <= pieces@.len(),
{
    let mut k: usize = 0;
    while k < pieces.len() && !names_something(&pieces[k])
        invariant
            0 <= k <= pieces@.len(),
            named_start(rows(pieces@), 0) == named_start(rows(pieces@), k as int),
        decreases pieces@.len() - k,
    {
        assert(rows(pieces@)[k as int] == pieces@[k as int]@);
        k += 1;
    }
    assert(k < pieces@.len() ==> rows(pieces@)[k as int] == pieces@[k as int]@);
    k
}

/// The pieces behind the first `k` that name something.
pub fn behind_named(pieces: &Vec<Vec<char>>, k: usize) -> (r: Vec<Vec<char>>)
    ensures
        rows(r@) == behind(rows(pieces@), k as int),
{
    let ghost all = rows(pieces@);
    let mut left: usize = k;
    let mut i: usize = 0;
    assert(all.skip(0) =~= all);
    while left > 0 && i < pieces.len()
        invariant
            0 <= i <= pieces@.len(),
            all == rows(pieces@),
            behind(all, k as int) == behind(all.skip(i as int), left as int),
        decreases pieces@.len() - i,
    {
        assert(all.skip(i as int)[0] == pieces@[i as int]@);
        assert(all.skip(i as int).skip(1) =~= all.skip(i + 1));
        if names_something(&pieces[i]) {
            left -= 1;
        }
        i += 1;
    }
    last_parts(pieces, i)
}

/// The text of the pieces from `from` to `to`.
fn text_between(pieces: &Vec<Vec<char>>, from: usize, to: usize) -> (r: String)
    requires
        from <= to <= pieces@.len(),
    ensures
        r@ == path_of(rows(pieces@).subrange(from as int, to as int)),
{
    let head = first_parts(pieces, to);
    assert(rows(head@).len() == head@.len());
    let part = last_parts(&head, from);
    assert(rows(part@) =~= rows(pieces@).subrange(from as int, to as int));
    path_text(&part)
}

/// How the directory that holds the last named piece is spelled.
pub fn parent_spelling(pieces: &Vec<Vec<char>>) -> (r: String)
    ensures
        r@ == spelled_parent(rows(pieces@)),
{
    let from = start_of_named(pieces);
    let end = end_of_named(pieces, 0, pieces.len());
    if end > 0 {
        let to = end_of_named(pieces, 0, end - 1);
        if from < to {
            return text_between(pieces, from, to);
        }
    } else {
        assert(named_end(rows(pieces@), 0, -1) == 0);
    }
    let r = String::new();
    assert(r@ =~= Seq::<char>::empty());
    r
}

/// The directories above `path`, nearest first, each as `path` spells it.
pub fn ancestors_of(path: &str) -> (r: Vec<String>)
    ensures
        r.deep_view() == ancestors(path@, split_on(path@, '/').len() as int),
{
    let text = chars_of(path);
    let pieces = split_chars(&text, '/');
    let from_root = text.len() > 0 && text[0] == '/';
    let base: usize = if from_root || is_dot(&pieces[0]) {
        1
    } else {
        0
    };
    let ghost all = rows(pieces@);
    assert(all[0] == pieces@[0]@);
    let mut r: Vec<String> = Vec::new();
    let mut n: usize = pieces.len();
    assert(r.deep_view() + ancestors(path@, n as int) =~= ancestors(path@, n as int));
    while n > base
        invariant
            base <= n <= pieces@.len(),
            all == rows(pieces@),
            all == split_on(path@, '/'),
            base == lead(path@),
            from_root == is_absolute(path@),
            r.deep_view() + ancestors(path@, n as int) == ancestors(path@, all.len() as int),
        decreases n,
    {
        assert(all[n - 1] == pieces@[n - 1]@);
        if names_something(&pieces[n - 1]) {
            let end = end_of_named(&pieces, base, n - 1);
            let dir = if from_root && end <= 1 {
                let root = "/".to_owned();
                proof {
                    reveal_strlit("/");
                    assert(root@ =~= seq!['/']);
                }
                root
            } else {
                assert(all.subrange(0, end as int) =~= all.take(end as int));
                text_between(&pieces, 0, end)
            };
            let ghost before = r.deep_view();
            let ghost d = dir@;
            r.push(dir);
            proof {
                assert(r.deep_view() =~= before.push(d));
                assert(before.push(d) + ancestors(path@, n - 1) =~= before + (seq![d] + ancestors(
                    path@,
                    n - 1,
                )));
            }
        }
        n -= 1;
    }
    if base > 0 && !from_root {
        let ghost before = r.deep_view();
        r.push(String::new());
        proof {
            assert(r@.last()@ =~= Seq::<char>::empty());
            assert(r.deep_view() =~= before.push(Seq::empty()));
            assert(before + seq![Seq::<char>::empty()] =~= r.deep_view());
        }
    } else {
        assert(r.deep_view() + Seq::<Seq<char>>::empty() =~= r.deep_view());
    }
    r
}

/// The components of a path.
pub fn components_of(path: &Vec<char>) -> (r: Vec<Vec<char>>)
    ensures
        rows(r@) == components(path@),
{
    named_of(&split_chars(path, '/'))
}

/// The pieces that name something.
pub fn named_of(pieces: &Vec<Vec<char>>) -> (r: Vec<Vec<char>>)
    ensures
        rows(r@) == named_pieces(rows(pieces@)),
{
    let ghost all = rows(pieces@);
    let mut r: Vec<Vec<char>> = Vec::new();
    let mut i: usize = 0;
    assert(all.take(0) =~= Seq::<Seq<char>>::empty());
    assert(rows(r@) =~= named_pieces(all.take(0)));
    while i < pieces.len()
        invariant
            0 <= i <= pieces@.len(),
            all == rows(pieces@),
            rows(r@) == named_pieces(all.take(i as int)),
        decreases pieces@.len() - i,
    {
        let ghost before = rows(r@);
        assert(all.take(i + 1).drop_last() =~= all.take(i as int));
        assert(all.take(i + 1).last() == pieces@[i as int]@);
        if names_something(&pieces[i]) {
            r.push(copy_chars(&pieces[i]));
            assert(rows(r@) =~= before.push(pieces@[i as int]@));
        }
        i += 1;
    }
    assert(all.take(i as int) =~= all);
    r
}

/// The components of a path given as text.
pub fn parts_of(path: &str) -> (r: Vec<Vec<char>>)
    ensures
        rows(r@) == components(path@),
{
    components_of(&chars_of(path))
}

/// Joins pieces with one character between each two.
pub fn join_rows(parts: &Vec<Vec<char>>, sep: char) -> (r: Vec<char>)
    ensures
        r@ == join(rows(parts@), seq![sep]),
{
    let mut r: Vec<char> = Vec::new();
    let mut i: usize = 0;
    let ghost all = rows(parts@);
    assert(all.take(0).len() == 0);
    assert(r@ =~= join(all.take(0), seq![sep]));
    while i < parts.len()
        invariant
            0 <= i <= parts@.len(),
            all == rows(parts@),
            r@ == join(all.take(i as int), seq![sep]),
        decreases parts@.len() - i,
    {
        let ghost now = all.take(i + 1);
        assert(now.drop_last() =~= all.take(i as int));
        assert(now.last() == parts@[i as int]@);
        let ghost before = r@;
        if i > 0 {
            r.push(sep);
            assert(r@ =~= before + seq![sep]);
        } else {
            assert(before =~= Seq::<char>::empty());
            assert(before + parts@[0]@ =~= parts@[0]@);
        }
        extend_chars(&mut r, &parts[i]);
        i += 1;
    }
    assert(all.take(i as int) =~= all);
    r
}

/// The path of a list of components.
pub fn path_text(parts: &Vec<Vec<char>>) -> (r: String)
    ensures
        r@ == path_of(rows(parts@)),
{
    text_of(&join_rows(parts, '/'))
}

fn tidy_chars(path: &Vec<char>) -> (r: Vec<char>)
    ensures
        r@ == tidy(path@),
{
    let parts = components_of(path);
    if path.len() > 0 && path[0] == '/' {
        let mut r: Vec<char> = vec!['/'];
        extend_chars(&mut r, &join_rows(&parts, '/'));
        assert(r@ =~= tidy(path@));
        return r;
    }
    let pieces = split_chars(path, '/');
    assert(rows(pieces@)[0] == pieces@[0]@);
    if is_dot(&pieces[0]) {
        let mut dotted: Vec<Vec<char>> = vec![vec!['.']];
        assert(dotted@[0]@ =~= dot());
        assert(rows(dotted@) =~= seq![dot()]);
        push_all(&mut dotted, &parts);
        assert(rows(dotted@) =~= seq![dot()] + rows(parts@));
        join_rows(&dotted, '/')
    } else {
        join_rows(&parts, '/')
    }
}

/// Appends copies of `more` to `list`.
pub fn push_all(list: &mut Vec<Vec<char>>, more: &Vec<Vec<char>>)
    ensures
        rows(final(list)@) == rows(old(list)@) + rows(more@),
{
    let ghost before = rows(list@);
    let mut i: usize = 0;
    assert(rows(list@) =~= before + rows(more@).take(0));
    while i < more.len()
        invariant
            0 <= i <= more@.len(),
            rows(list@) == before + rows(more@).take(i as int),
        decreases more@.len() - i,
    {
        let ghost prev = rows(list@);
        list.push(copy_chars(&more[i]));
        assert(rows(list@) =~= prev.push(more@[i as int]@));
        i += 1;
        assert(rows(list@) =~= before + rows(more@).take(i as int));
    }
    assert(rows(more@).take(i as int) =~= rows(more@));
}

/// The first `n` of `parts`.
pub fn first_parts(parts: &Vec<Vec<char>>, n: usize) -> (r: Vec<Vec<char>>)
    requires
        n <= parts@.len(),
    ensures
        rows(r@) == rows(parts@).take(n as int),
{
    let mut r: Vec<Vec<char>> = Vec::new();
    let mut i: usize = 0;
    assert(rows(r@) =~= rows(parts@).take(0));
    while i < n
        invariant
            0 <= i <= n <= parts@.len(),
            rows(r@) == rows(parts@).take(i as int),
        decreases n - i,
    {
        let ghost prev = rows(r@);
        r.push(copy_chars(&parts[i]));
        assert(rows(r@) =~= prev.push(parts@[i as int]@));
        i += 1;
        assert(rows(r@) =~= rows(parts@).take(i as int));
    }
    r
}

/// The directory that holds the last component.
pub fn parent_parts(parts: &Vec<Vec<char>>) -> (r: Vec<Vec<char>>)
    ensures
        rows(r@) == parent(rows(parts@)),
{
    let n: usize = if parts.len() > 0 {
        parts.len() - 1
    } else {
        0
    };
    assert(rows(parts@).take(n as int) =~= parent(rows(parts@)));
    first_parts(parts, n)
}

/// `parts` followed by one more component.
pub fn with_part(parts: &Vec<Vec<char>>, last: &Vec<char>) -> (r: Vec<Vec<char>>)
    ensures
        rows(r@) == rows(parts@).push(last@),
{
    let mut r = first_parts(parts, parts.len());
    assert(rows(parts@).take(parts@.len() as int) =~= rows(parts@));
    let ghost prev = rows(r@);
    r.push(copy_chars(last));
    assert(rows(r@) =~= prev.push(last@));
    r
}

/// The components behind the first `n`.
pub fn last_parts(parts: &Vec<Vec<char>>, n: usize) -> (r: Vec<Vec<char>>)
    requires
        n <= parts@.len(),
    ensures
        rows(r@) == rows(parts@).skip(n as int),
{
    let mut r: Vec<Vec<char>> = Vec::new();
    let ghost all = rows(parts@);
    let mut i: usize = n;
    assert(rows(r@) =~= all.subrange(n as int, n as int));
    while i < parts.len()
        invariant
            n <= i <= parts@.len(),
            all == rows(parts@),
            rows(r@) == all.subrange(n as int, i as int),
        decreases parts@.len() - i,
    {
        let ghost prev = rows(r@);
        r.push(copy_chars(&parts[i]));
        assert(rows(r@) =~= prev.push(all[i as int]));
        i += 1;
        assert(rows(r@) =~= all.subrange(n as int, i as int));
    }
    assert(rows(r@) =~= all.skip(n as int));
    r
}

/// The components of `a`, and then those of `b`.
pub fn joined_parts(a: &Vec<Vec<char>>, b: &Vec<Vec<char>>) -> (r: Vec<Vec<char>>)
    ensures
        rows(r@) == rows(a@) + rows(b@),
{
    let mut r = first_parts(a, a.len());
    assert(rows(a@).take(a@.len() as int) =~= rows(a@));
    push_all(&mut r, b);
    r
}

/// Whether two lists of components are equal.
pub fn same_parts(a: &Vec<Vec<char>>, b: &Vec<Vec<char>>) -> (r: bool)
    ensures
        r == (rows(a@) == rows(b@)),
{
    if a.len() != b.len() {
        assert(rows(a@).len() != rows(b@).len());
        return false;
    }
    let mut i: usize = 0;
    while i < a.len()
        invariant
            0 <= i <= a@.len(),
            a@.len() == b@.len(),
            forall|j: int| 0 <= j < i ==> #[trigger] rows(a@)[j] == rows(b@)[j],
        decreases a@.len() - i,
    {
        if !same_chars(&a[i], &b[i]) {
            assert(rows(a@)[i as int] != rows(b@)[i as int]);
            return false;
        }
        i += 1;
    }
    assert(rows(a@) =~= rows(b@));
    true
}

/// The name of a file in the import graph.
pub fn canonicalize_relative(path: &str) -> (r: String)
    ensures
        r@ == canonical(path@),
{
    let s = replace_in(&chars_of(path), '\\', '/');
    if s.len() >= 2 && s[0] == '.' && s[1] == '/' {
        assert(s@.subrange(0, 2) =~= seq!['.', '/']);
        let rest = slice_of(&s, 2, s.len());
        assert(rest@ =~= s@.skip(2));
        text_of(&tidy_chars(&rest))
    } else {
        assert(strip_prefix(s@, seq!['.', '/']) is None) by {
            if s@.len() >= 2 {
                assert(s@.subrange(0, 2)[0] == s@[0] && s@.subrange(0, 2)[1] == s@[1]);
                assert(seq!['.', '/'][0] == '.' && seq!['.', '/'][1] == '/');
            }
        }
        text_of(&tidy_chars(&s))
    }
}

/// A file name up to its last dot.
pub fn stem_of(name: &Vec<char>) -> (r: Vec<char>)
    ensures
        r@ == stem(name@),
{
    match find_last_char(name, '.') {
        Some(i) => if i > 0 {
            assert(name@.take(i as int) =~= name@.subrange(0, i as int));
            slice_of(name, 0, i)
        } else {
            copy_chars(name)
        },
        None => copy_chars(name),
    }
}

/// What follows the last dot of a file name.
pub fn extension_of(name: &Vec<char>) -> (r: Option<Vec<char>>)
    ensures
        match r {
            Some(e) => extension(name@) == Some(e@),
            None => extension(name@) is None,
        },
{
    match find_last_char(name, '.') {
        Some(i) => if i > 0 {
            let n: usize = name.len();
            assert(name@.skip(i + 1) =~= name@.subrange(i + 1, name@.len() as int));
            Some(slice_of(name, i + 1, n))
        } else {
            None
        },
        None => None,
    }
}

} // verus!
