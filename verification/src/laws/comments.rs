//! What source text says once comments are gone, and how imports are written down.
use vstd::prelude::*;
use vstd::utf8::encode_utf8;

use crate::imports::python::{before_hash, python_specifier};
use crate::imports::rust::{foreign_heads, local_heads, marked, rust_specifiers};
use crate::imports::{block_end, line_end, pair_at, uncommented};
use crate::text::{digit, index_of, listed};

verus! {

/// Bytes, each as one character.
pub open spec fn as_chars(b: Seq<u8>) -> Seq<char> {
    Seq::new(b.len(), |k: int| b[k] as char)
}

/// `b` holds no slash.
pub open spec fn has_no_slash(b: Seq<u8>) -> bool {
    forall|k: int| 0 <= k < b.len() ==> #[trigger] b[k] != 47
}

proof fn line_ends_shift(a: Seq<u8>, b: Seq<u8>, i: int)
    requires
        0 <= i,
    ensures
        line_end(a + b, a.len() + i) == a.len() + line_end(b, i),
    decreases b.len() - i,
{
    if i < b.len() {
        assert((a + b)[a.len() + i] == b[i]);
        if b[i] != 10 {
            line_ends_shift(a, b, i + 1);
        }
    }
}

proof fn block_ends_shift(a: Seq<u8>, b: Seq<u8>, i: int)
    requires
        0 <= i,
    ensures
        block_end(a + b, a.len() + i) == a.len() + block_end(b, i),
    decreases b.len() - i,
{
    if i + 1 < b.len() {
        assert((a + b)[a.len() + i] == b[i]);
        assert((a + b)[a.len() + i + 1] == b[i + 1]);
        if !pair_at(b, i, 42, 47) {
            block_ends_shift(a, b, i + 1);
        }
    }
}

proof fn ends_are_ahead(b: Seq<u8>, i: int)
    requires
        0 <= i,
    ensures
        i <= b.len() ==> i <= line_end(b, i) <= b.len(),
        i <= b.len() ==> i <= block_end(b, i) <= b.len(),
        i > b.len() ==> block_end(b, i) == b.len(),
    decreases b.len() - i,
{
    if i < b.len() {
        ends_are_ahead(b, i + 1);
    }
}

/// What stands before a position does not matter for what follows it.
proof fn stripping_shifts(a: Seq<u8>, b: Seq<u8>, i: int)
    requires
        0 <= i,
    ensures
        uncommented(a + b, a.len() + i) == uncommented(b, i),
    decreases b.len() - i,
{
    let w = a + b;
    let p = a.len() + i;
    if i < b.len() {
        assert(w[p] == b[i]);
        if i + 1 < b.len() {
            assert(w[p + 1] == b[i + 1]);
        }
        assert(pair_at(w, p, 47, 47) == pair_at(b, i, 47, 47));
        assert(pair_at(w, p, 47, 42) == pair_at(b, i, 47, 42));
        if pair_at(b, i, 47, 47) {
            ends_are_ahead(b, i + 1);
            line_ends_shift(a, b, i);
            assert(line_end(b, i) == line_end(b, i + 1));
            stripping_shifts(a, b, line_end(b, i));
        } else if pair_at(b, i, 47, 42) {
            ends_are_ahead(b, i + 2);
            block_ends_shift(a, b, i + 2);
            stripping_shifts(a, b, block_end(b, i + 2));
        } else {
            stripping_shifts(a, b, i + 1);
        }
    }
}

proof fn plain_bytes_stay(a: Seq<u8>, b: Seq<u8>, i: int)
    requires
        0 <= i <= a.len(),
        has_no_slash(a),
    ensures
        uncommented(a + b, i) == as_chars(a.skip(i)) + uncommented(b, 0),
    decreases a.len() - i,
{
    let w = a + b;
    if i == a.len() {
        stripping_shifts(a, b, 0);
        assert(as_chars(a.skip(i)) + uncommented(b, 0) =~= uncommented(b, 0));
    } else {
        assert(w[i] == a[i]);
        assert(a[i] != 47);
        plain_bytes_stay(a, b, i + 1);
        assert(seq![w[i] as char] + (as_chars(a.skip(i + 1)) + uncommented(b, 0)) =~= as_chars(
            a.skip(i),
        ) + uncommented(b, 0));
    }
}

proof fn line_end_found(c: Seq<u8>, b: Seq<u8>, i: int)
    requires
        0 <= i <= c.len(),
        forall|k: int| 0 <= k < c.len() ==> #[trigger] c[k] != 10,
    ensures
        line_end(c + seq![10u8] + b, i) == c.len(),
    decreases c.len() - i,
{
    let w = c + seq![10u8] + b;
    if i < c.len() {
        assert(w[i] == c[i]);
        line_end_found(c, b, i + 1);
    } else {
        assert(w[i] == 10);
    }
}

/// A comment behind two slashes goes, up to the end of its line. What comes before it stays as it
/// is, and what comes after it is stripped in the same way.
pub proof fn line_comments_go(a: Seq<u8>, c: Seq<u8>, b: Seq<u8>)
    requires
        has_no_slash(a),
        forall|k: int| 0 <= k < c.len() ==> #[trigger] c[k] != 10,
    ensures
        uncommented(a + (seq![47u8, 47u8] + c + seq![10u8] + b), 0) == as_chars(a) + seq![
            10u8 as char,
        ] + uncommented(b, 0),
{
    let slashes = seq![47u8, 47u8] + c;
    let rest = slashes + seq![10u8] + b;
    assert(rest =~= seq![47u8, 47u8] + c + seq![10u8] + b);
    plain_bytes_stay(a, rest, 0);
    assert(a.skip(0) =~= a);
    assert(rest[0] == 47 && rest[1] == 47);
    assert forall|k: int| 0 <= k < slashes.len() implies #[trigger] slashes[k] != 10 by {
        if k >= 2 {
            assert(slashes[k] == c[k - 2]);
        }
    }
    line_end_found(slashes, b, 0);
    let n = slashes.len() as int;
    stripping_shifts(slashes, seq![10u8] + b, 0);
    assert(slashes + (seq![10u8] + b) =~= rest);
    let last = seq![10u8];
    plain_bytes_stay(last, b, 0);
    assert(last.skip(0) =~= last);
    assert(as_chars(last) =~= seq![10u8 as char]);
    assert(uncommented(rest, 0) == uncommented(rest, n));
    assert(as_chars(a) + (seq![10u8 as char] + uncommented(b, 0)) =~= as_chars(a) + seq![
        10u8 as char,
    ] + uncommented(b, 0));
}

proof fn block_end_found(c: Seq<u8>, b: Seq<u8>, i: int)
    requires
        0 <= i <= c.len(),
        forall|k: int|
            0 <= k < c.len() ==> !(#[trigger] c[k] == 42 && (c + seq![42u8, 47u8])[k + 1] == 47),
    ensures
        block_end(c + seq![42u8, 47u8] + b, i) == c.len() + 2,
    decreases c.len() - i,
{
    let w = c + seq![42u8, 47u8] + b;
    if i < c.len() {
        assert(w[i] == c[i]);
        assert(w[i + 1] == (c + seq![42u8, 47u8])[i + 1]);
        assert(!(c[i] == 42 && (c + seq![42u8, 47u8])[i + 1] == 47));
        block_end_found(c, b, i + 1);
    } else {
        assert(w[i] == 42 && w[i + 1] == 47);
    }
}

/// A comment between `/*` and `*/` goes.
pub proof fn block_comments_go(a: Seq<u8>, c: Seq<u8>, b: Seq<u8>)
    requires
        has_no_slash(a),
        forall|k: int|
            0 <= k < c.len() ==> !(#[trigger] c[k] == 42 && (c + seq![42u8, 47u8])[k + 1] == 47),
    ensures
        uncommented(a + (seq![47u8, 42u8] + (c + seq![42u8, 47u8] + b)), 0) == as_chars(a)
            + uncommented(b, 0),
{
    let open = seq![47u8, 42u8];
    let body = c + seq![42u8, 47u8];
    let tail = body + b;
    let rest = open + tail;
    assert(open + (c + seq![42u8, 47u8] + b) =~= rest);
    plain_bytes_stay(a, rest, 0);
    assert(a.skip(0) =~= a);
    assert(rest[0] == 47 && rest[1] == 42);
    block_end_found(c, b, 0);
    block_ends_shift(open, tail, 0);
    let all = open + body;
    assert(all + b =~= rest);
    stripping_shifts(all, b, 0);
    assert(uncommented(rest, 0) == uncommented(rest, all.len() as int));
}

/// Text without slashes holds no comments.
pub proof fn text_without_slashes_stays(a: Seq<u8>)
    requires
        has_no_slash(a),
    ensures
        uncommented(a, 0) == as_chars(a),
{
    let none = Seq::<u8>::empty();
    plain_bytes_stay(a, none, 0);
    assert(a + none =~= a);
    assert(a.skip(0) =~= a);
    assert(as_chars(a) + uncommented(none, 0) =~= as_chars(a));
}

/// A line of Python ends where its comment begins.
pub proof fn hashes_end_lines(a: Seq<char>, c: Seq<char>)
    requires
        forall|k: int| 0 <= k < a.len() ==> #[trigger] a[k] != '#',
    ensures
        before_hash(a) == a,
        before_hash(a + seq!['#'] + c) == a,
{
    no_hash(a, 0);
    first_hash(a, c, 0);
    assert((a + seq!['#'] + c).take(a.len() as int) =~= a);
}

proof fn no_hash(a: Seq<char>, i: int)
    requires
        0 <= i,
        forall|k: int| 0 <= k < a.len() ==> #[trigger] a[k] != '#',
    ensures
        index_of(a, '#', i) is None,
    decreases a.len() - i,
{
    if i < a.len() {
        assert(a[i] != '#');
        no_hash(a, i + 1);
    }
}

proof fn first_hash(a: Seq<char>, c: Seq<char>, i: int)
    requires
        0 <= i <= a.len(),
        forall|k: int| 0 <= k < a.len() ==> #[trigger] a[k] != '#',
    ensures
        index_of(a + seq!['#'] + c, '#', i) == Some(a.len() as int),
    decreases a.len() - i,
{
    let w = a + seq!['#'] + c;
    if i < a.len() {
        assert(w[i] == a[i]);
        first_hash(a, c, i + 1);
    } else {
        assert(w[i] == '#');
    }
}

// ---------------------------------------------------------------------------------------------
// Specifiers
// ---------------------------------------------------------------------------------------------
/// Heads of paths that stay within a crate or within the standard library.
pub open spec fn stays_within(head: Seq<char>) -> bool {
    head == "crate"@ || head == "self"@ || head == "super"@ || head == "std"@ || head == "core"@
        || head == "alloc"@
}

proof fn local_heads_stay_within(head: Seq<char>)
    ensures
        listed(local_heads(), head) <==> stays_within(head),
{
    let l = local_heads();
    if stays_within(head) {
        assert(l[0] == head || l[1] == head || l[2] == head || l[3] == head || l[4] == head || l[5]
            == head);
    }
}

proof fn foreign_heads_are_kept(heads: Seq<Seq<char>>, n: int, h: Seq<char>)
    requires
        0 <= n <= heads.len(),
    ensures
        listed(foreign_heads(heads, n), h) <==> listed(heads.take(n), h) && !stays_within(h),
    decreases n,
{
    if n > 0 {
        foreign_heads_are_kept(heads, n - 1, h);
        let q = foreign_heads(heads, n - 1);
        let f = foreign_heads(heads, n);
        let x = heads[n - 1];
        local_heads_stay_within(x);
        if listed(heads.take(n), h) {
            let i = choose|i: int| 0 <= i < n && #[trigger] heads.take(n)[i] == h;
            if i < n - 1 {
                assert(heads.take(n - 1)[i] == h);
            }
        }
        if listed(heads.take(n - 1), h) {
            let i = choose|i: int| 0 <= i < n - 1 && #[trigger] heads.take(n - 1)[i] == h;
            assert(heads.take(n)[i] == h);
        }
        if x == h {
            assert(heads.take(n)[n - 1] == h);
        }
        if listed(q, h) {
            let i = choose|i: int| 0 <= i < q.len() && #[trigger] q[i] == h;
            assert(f[i] == h);
        }
        if !stays_within(x) {
            assert(f[q.len() as int] == x);
            if listed(f, h) && h != x {
                let i = choose|i: int| 0 <= i < f.len() && #[trigger] f[i] == h;
                assert(q[i] == h);
            }
        }
    } else {
        assert(heads.take(0).len() == 0);
    }
}

/// Each module that a Rust file declares is one of its imports, and each head of a path that it
/// uses, unless the head stays within the crate or the standard library.
pub proof fn modules_and_crates_are_imports(
    mods: Seq<Seq<char>>,
    heads: Seq<Seq<char>>,
    x: Seq<char>,
)
    ensures
        listed(mods, x) ==> listed(rust_specifiers(mods, heads), "mod:"@ + x),
        listed(heads, x) && !stays_within(x) ==> listed(rust_specifiers(mods, heads), "use:"@ + x),
        stays_within(x) ==> !listed(rust_specifiers(mods, heads), "use:"@ + x),
{
    reveal_strlit("mod:");
    reveal_strlit("use:");
    let m = marked(mods, "mod:"@);
    let f = foreign_heads(heads, heads.len() as int);
    let u = marked(f, "use:"@);
    let all = rust_specifiers(mods, heads);
    foreign_heads_are_kept(heads, heads.len() as int, x);
    assert(heads.take(heads.len() as int) =~= heads);
    if listed(mods, x) {
        let i = choose|i: int| 0 <= i < mods.len() && #[trigger] mods[i] == x;
        assert(all[i] == "mod:"@ + x);
    }
    if listed(f, x) {
        let i = choose|i: int| 0 <= i < f.len() && #[trigger] f[i] == x;
        assert(all[m.len() + i] == "use:"@ + x);
    }
    if stays_within(x) && listed(all, "use:"@ + x) {
        let i = choose|i: int| 0 <= i < all.len() && #[trigger] all[i] == "use:"@ + x;
        if i < m.len() {
            assert(all[i] == "mod:"@ + mods[i]);
            assert((("mod:"@ + mods[i]))[0] == 'm');
            assert(("use:"@ + x)[0] == 'u');
        } else {
            let h = f[i - m.len()];
            assert(all[i] == "use:"@ + h);
            assert(("use:"@ + h).skip(4) =~= h);
            assert(("use:"@ + x).skip(4) =~= x);
        }
    }
}

/// The first dot of a relative import of Python means its own package, and the second the one
/// above. Other imports are absolute.
pub proof fn dots_count_levels(
    groups: Seq<Option<Seq<char>>>,
    name: Seq<char>,
)
    requires
        groups.len() == 5,
    ensures
        groups[1] == Some(seq!['.']) && groups[2] == Some(name) ==> python_specifier(groups)
            == Some("rel:0:"@ + name),
        groups[1] == Some(seq!['.', '.']) && groups[2] == Some(name) ==> python_specifier(groups)
            == Some("rel:1:"@ + name),
        groups[1] is None && groups[3] == Some(name) ==> python_specifier(groups) == Some(
            "abs:"@ + name,
        ),
        groups[1] is None && groups[3] is None && groups[4] == Some(name) ==> python_specifier(
            groups,
        ) == Some("abs:"@ + name),
{
    reveal_strlit("rel:");
    reveal_strlit(":");
    reveal_strlit("rel:0:");
    reveal_strlit("rel:1:");
    one_byte_dots();
    assert(digit(0) == '0' && digit(1) == '1');
    assert("rel:"@ + seq!['0'] + ":"@ + name =~= "rel:0:"@ + name);
    assert("rel:"@ + seq!['1'] + ":"@ + name =~= "rel:1:"@ + name);
}

proof fn one_byte_dots()
    ensures
        encode_utf8(seq!['.']).len() == 1,
        encode_utf8(seq!['.', '.']).len() == 2,
{
    reveal_with_fuel(encode_utf8, 3);
    assert(seq!['.'].drop_first() =~= Seq::<char>::empty());
    assert(seq!['.', '.'].drop_first() =~= seq!['.']);
}

} // verus!
