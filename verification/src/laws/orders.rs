//! The order of texts and of paths.
use vstd::prelude::*;
use vstd::set_lib::{lemma_int_range, lemma_subset_equality, set_int_range};

use crate::ranking::{
    arranged, is_path_sorted, is_permutation, path_before, paths_ascend, text_before,
};
use crate::text::{listed, replace_char};

verus! {

/// `a` and `b` agree up to position `n`, where `a` is over or has the lesser character.
pub open spec fn differs_first_at(a: Seq<char>, b: Seq<char>, n: int) -> bool {
    &&& 0 <= n <= a.len()
    &&& n < b.len()
    &&& forall|k: int| 0 <= k < n ==> a[k] == #[trigger] b[k]
    &&& n == a.len() || a[n] < b[n]
}

/// Texts are ordered by the first character in which they differ, and a text comes before what
/// continues it.
pub proof fn the_first_difference_decides(a: Seq<char>, b: Seq<char>)
    ensures
        text_before(a, b) <==> exists|n: int| differs_first_at(a, b, n),
    decreases a.len(),
{
    if b.len() > 0 && a.len() == 0 {
        assert(differs_first_at(a, b, 0));
    } else if b.len() > 0 && a.len() > 0 && a[0] == b[0] {
        let (x, y) = (a.drop_first(), b.drop_first());
        the_first_difference_decides(x, y);
        if text_before(x, y) {
            let n = choose|n: int| differs_first_at(x, y, n);
            assert forall|k: int| 0 <= k < n + 1 implies a[k] == #[trigger] b[k] by {
                if k > 0 {
                    assert(x[k - 1] == y[k - 1]);
                }
            }
            assert(differs_first_at(a, b, n + 1));
        }
        if exists|n: int| differs_first_at(a, b, n) {
            let n = choose|n: int| differs_first_at(a, b, n);
            assert(n > 0);
            assert forall|k: int| 0 <= k < n - 1 implies x[k] == #[trigger] y[k] by {
                assert(a[k + 1] == b[k + 1]);
            }
            assert(differs_first_at(x, y, n - 1));
        }
    } else if b.len() > 0 && a.len() > 0 {
        if a[0] < b[0] {
            assert(differs_first_at(a, b, 0));
        }
        if exists|n: int| differs_first_at(a, b, n) {
            let n = choose|n: int| differs_first_at(a, b, n);
            if n > 0 {
                assert(a[0] == b[0]);
            }
        }
    }
}

/// What stands in the directory `d` comes before every path that only continues the name of `d`.
pub proof fn directories_come_together(d: Seq<char>, x: Seq<char>, c: char, y: Seq<char>)
    requires
        c != '/',
        c != '\0',
    ensures
        path_before(d + seq!['/'] + x, d + seq![c] + y),
{
    let a = d + seq!['/'] + x;
    let b = d + seq![c] + y;
    let p = replace_char(a, '/', '\0');
    let q = replace_char(b, '/', '\0');
    let n = d.len() as int;
    assert forall|k: int| 0 <= k < n implies p[k] == #[trigger] q[k] by {
        assert(a[k] == b[k]);
    }
    assert(a[n] == '/' && b[n] == c);
    assert(p[n] == '\0' && q[n] == c);
    assert(differs_first_at(p, q, n));
    the_first_difference_decides(p, q);
}

/// Sorting keeps the paths, and puts none before one that precedes it.
pub proof fn sorting_keeps_the_paths(out: Seq<Seq<char>>, all: Seq<Seq<char>>, p: Seq<char>)
    requires
        is_path_sorted(out, all),
    ensures
        out.len() == all.len(),
        listed(out, p) <==> listed(all, p),
        forall|a: int, b: int|
            0 <= a < b < out.len() ==> !path_before(#[trigger] out[b], #[trigger] out[a]),
{
    let order = choose|order: Seq<int>| #[trigger]
        is_permutation(order, all.len() as int) && out == arranged(all, order);
    if listed(out, p) {
        let k = choose|k: int| 0 <= k < out.len() && #[trigger] out[k] == p;
        assert(all[order[k]] == p);
    }
    if listed(all, p) {
        let i = choose|i: int| 0 <= i < all.len() && #[trigger] all[i] == p;
        let numbers = set_int_range(0, all.len() as int);
        lemma_int_range(0, all.len() as int);
        order.unique_seq_to_set();
        assert(order.to_set().subset_of(numbers));
        lemma_subset_equality(order.to_set(), numbers);
        assert(order.to_set().contains(i));
        let k = choose|k: int| 0 <= k < order.len() && order[k] == i;
        assert(out[k] == p);
    }
    assert(paths_ascend(out));
}

} // verus!
