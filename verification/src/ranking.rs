//! Stable ordering of lists by a number, greatest first, and sorted sets of texts.
use vstd::prelude::*;

use crate::text::{chars_of, listed, replace_char, replace_in, text_of};

verus! {

/// Item `a` ranks before item `b`: by a greater key, or by an earlier position where keys tie.
pub open spec fn precedes(keys: Seq<u128>, a: int, b: int) -> bool {
    keys[a] > keys[b] || (keys[a] == keys[b] && a < b)
}

/// `order` lists every position of `keys` in ranking order.
pub open spec fn is_ranking(keys: Seq<u128>, order: Seq<int>) -> bool {
    &&& order.len() == keys.len()
    &&& forall|k: int| 0 <= k < order.len() ==> 0 <= #[trigger] order[k] < keys.len()
    &&& forall|a: int, b: int|
        0 <= a < b < order.len() ==> precedes(keys, #[trigger] order[a], #[trigger] order[b])
}

/// `items` in the order that `order` gives.
pub open spec fn arranged<T>(items: Seq<T>, order: Seq<int>) -> Seq<T> {
    Seq::new(order.len(), |k: int| items[order[k]])
}

/// `out` holds `items` by key, greatest first; equal keys keep their order.
pub open spec fn ranked<T>(items: Seq<T>, keys: Seq<u128>, out: Seq<T>) -> bool {
    exists|order: Seq<int>| #[trigger] is_ranking(keys, order) && out == arranged(items, order)
}

/// Sorts `items` by `keys`, greatest first; equal keys keep their order.
pub fn rank_desc<T>(items: Vec<T>, keys: Vec<u128>) -> (out: Vec<T>)
    requires
        items@.len() == keys@.len(),
    ensures
        ranked(items@, keys@, out@),
{
    let ghost all = items@;
    let ghost ks = keys@;
    let ghost n = all.len();
    let mut items = items;
    let mut keys = keys;
    let mut out: Vec<T> = Vec::new();
    let mut out_keys: Vec<u128> = Vec::new();
    let ghost mut order: Seq<int> = Seq::empty();
    while items.len() > 0
        invariant
            n == all.len() == ks.len(),
            items@.len() <= n,
            items@ == all.take(items@.len() as int),
            keys@ == ks.take(items@.len() as int),
            out@.len() == order.len() == out_keys@.len() == n - items@.len(),
            forall|k: int| 0 <= k < order.len() ==> items@.len() <= #[trigger] order[k] < n,
            forall|k: int| 0 <= k < order.len() ==> out@[k] == all[#[trigger] order[k]],
            forall|k: int| 0 <= k < order.len() ==> out_keys@[k] == ks[#[trigger] order[k]],
            forall|a: int, b: int|
                0 <= a < b < order.len() ==> precedes(ks, #[trigger] order[a], #[trigger] order[b]),
        decreases items@.len(),
    {
        let ghost m = items@.len() - 1;
        let last = items.pop();
        let key = keys.pop();
        match (last, key) {
            (Some(item), Some(key)) => {
                let mut pos: usize = 0;
                while pos < out_keys.len() && out_keys[pos] > key
                    invariant
                        0 <= pos <= out_keys@.len(),
                        forall|k: int| 0 <= k < pos ==> out_keys@[k] > key,
                    decreases out_keys@.len() - pos,
                {
                    pos += 1;
                }
                proof {
                    assert(item == all[m]);
                    assert(key == ks[m]);
                    assert(items@ =~= all.take(m));
                    assert(keys@ =~= ks.take(m));
                    assert forall|b: int| pos <= b < order.len() implies ks[#[trigger] order[b]]
                        <= key by {
                        if b > pos {
                            assert(precedes(ks, order[pos as int], order[b]));
                        }
                    }
                    let next = order.insert(pos as int, m);
                    assert forall|a: int, b: int| 0 <= a < b < next.len() implies precedes(
                        ks,
                        #[trigger] next[a],
                        #[trigger] next[b],
                    ) by {
                        let oa = if a < pos {
                            a
                        } else {
                            a - 1
                        };
                        let ob = if b < pos {
                            b
                        } else {
                            b - 1
                        };
                        if a == pos {
                            assert(next[b] == order[b - 1]);
                        } else if b == pos {
                            assert(next[a] == order[a]);
                            assert(out_keys@[a] > key);
                        } else {
                            assert(next[a] == order[oa] && next[b] == order[ob]);
                            assert(precedes(ks, order[oa], order[ob]));
                        }
                    }
                    order = next;
                }
                out.insert(pos, item);
                out_keys.insert(pos, key);
            },
            _ => {
                assert(false);
            },
        }
    }
    proof {
        assert(is_ranking(ks, order));
        assert(out@ =~= arranged(all, order));
    }
    out
}

/// `items` in reverse order, so that popping takes them from the front.
pub fn reversed<T>(items: Vec<T>) -> (out: Vec<T>)
    ensures
        out@ == items@.reverse(),
{
    let ghost all = items@;
    let mut items = items;
    let mut out: Vec<T> = Vec::new();
    while items.len() > 0
        invariant
            items@.len() + out@.len() == all.len(),
            items@ == all.take(items@.len() as int),
            out@ == all.skip(items@.len() as int).reverse(),
        decreases items@.len(),
    {
        let ghost m = items@.len() - 1;
        if let Some(t) = items.pop() {
            out.push(t);
            proof {
                assert(items@ =~= all.take(m));
                assert(out@ =~= all.skip(m).reverse());
            }
        }
    }
    assert(out@ =~= all.reverse());
    out
}

/// A ranking leaves no position out.
pub proof fn ranking_is_complete(keys: Seq<u128>, order: Seq<int>, i: int)
    requires
        is_ranking(keys, order),
        0 <= i < keys.len(),
    ensures
        order.contains(i),
{
    assert(order.no_duplicates()) by {
        assert forall|a: int, b: int|
            0 <= a < order.len() && 0 <= b < order.len() && a != b implies order[a] != order[b] by {
            if a < b {
                assert(precedes(keys, order[a], order[b]));
            } else {
                assert(precedes(keys, order[b], order[a]));
            }
        }
    }
    order.unique_seq_to_set();
    let range = vstd::set_lib::set_int_range(0, keys.len() as int);
    vstd::set_lib::lemma_int_range(0, keys.len() as int);
    assert(order.to_set().subset_of(range));
    vstd::set_lib::lemma_subset_equality(order.to_set(), range);
    assert(range.contains(i));
    assert(order.to_set().contains(i));
}

/// There is one ranking: two lists that rank the same items agree.
pub proof fn ranking_is_unique(keys: Seq<u128>, p: Seq<int>, q: Seq<int>)
    requires
        is_ranking(keys, p),
        is_ranking(keys, q),
    ensures
        p == q,
{
    assert forall|k: int| 0 <= k < p.len() implies p[k] == q[k] by {
        rankings_agree_at(keys, p, q, k);
    }
    assert(p =~= q);
}

proof fn rankings_agree_at(keys: Seq<u128>, p: Seq<int>, q: Seq<int>, k: int)
    requires
        is_ranking(keys, p),
        is_ranking(keys, q),
        0 <= k < p.len(),
    ensures
        p[k] == q[k],
    decreases k,
{
    assert forall|j: int| 0 <= j < k implies p[j] == q[j] by {
        rankings_agree_at(keys, p, q, j);
    }
    if p[k] != q[k] {
        ranking_is_complete(keys, q, p[k]);
        let a = q.index_of(p[k]);
        assert(q[a] == p[k]);
        ranking_is_complete(keys, p, q[k]);
        let b = p.index_of(q[k]);
        assert(p[b] == q[k]);
        if a < k {
            assert(p[a] == q[a]);
            assert(precedes(keys, p[a], p[k]));
        }
        if b < k {
            assert(p[b] == q[b]);
            assert(precedes(keys, q[b], q[k]));
        }
        assert(a > k && b > k);
        assert(precedes(keys, q[k], q[a]));
        assert(precedes(keys, p[k], p[b]));
    }
}

// ---------------------------------------------------------------------------------------------
// Sorted sets of texts
// ---------------------------------------------------------------------------------------------
/// `a` comes before `b` in the order of their characters.
pub open spec fn text_before(a: Seq<char>, b: Seq<char>) -> bool
    decreases a.len(),
{
    if b.len() == 0 {
        false
    } else if a.len() == 0 {
        true
    } else if a[0] == b[0] {
        text_before(a.drop_first(), b.drop_first())
    } else {
        a[0] < b[0]
    }
}

/// `list` is in ascending order without repetitions.
pub open spec fn ascending(list: Seq<Seq<char>>) -> bool {
    forall|i: int, j: int|
        0 <= i < j < list.len() ==> text_before(#[trigger] list[i], #[trigger] list[j])
}

/// `out` holds the texts of `all`, each once, in ascending order.
pub open spec fn sorted_set_of(out: Seq<Seq<char>>, all: Seq<Seq<char>>) -> bool {
    ascending(out) && forall|x: Seq<char>| #[trigger] listed(out, x) <==> listed(all, x)
}

proof fn text_before_transitive(a: Seq<char>, b: Seq<char>, c: Seq<char>)
    requires
        text_before(a, b),
        text_before(b, c),
    ensures
        text_before(a, c),
    decreases a.len(),
{
    if a.len() > 0 && a[0] == b[0] && b[0] == c[0] {
        text_before_transitive(a.drop_first(), b.drop_first(), c.drop_first());
    }
}

proof fn text_before_equal_heads(a: Seq<char>, b: Seq<char>, n: int)
    requires
        0 <= n <= a.len(),
        n <= b.len(),
        forall|k: int| 0 <= k < n ==> a[k] == b[k],
    ensures
        text_before(a, b) == text_before(a.skip(n), b.skip(n)),
    decreases n,
{
    if n > 0 {
        assert forall|k: int| 0 <= k < n - 1 implies a.drop_first()[k] == b.drop_first()[k] by {
            assert(a[k + 1] == b[k + 1]);
        }
        text_before_equal_heads(a.drop_first(), b.drop_first(), n - 1);
        assert(a.drop_first().skip(n - 1) =~= a.skip(n));
        assert(b.drop_first().skip(n - 1) =~= b.skip(n));
    } else {
        assert(a.skip(0) =~= a);
        assert(b.skip(0) =~= b);
    }
}

/// Where one text stands relative to another.
pub enum Placing {
    Before,
    Same,
    After,
}

/// Compares two texts by their characters.
pub fn place(a: &str, b: &str) -> (r: Placing)
    ensures
        r is Same <==> a@ == b@,
        r is Before ==> text_before(a@, b@),
        r is After ==> text_before(b@, a@),
{
    let x = chars_of(a);
    let y = chars_of(b);
    let mut i: usize = 0;
    while i < x.len() && i < y.len()
        invariant
            0 <= i <= x@.len(),
            i <= y@.len(),
            x@ == a@,
            y@ == b@,
            forall|k: int| 0 <= k < i ==> x@[k] == y@[k],
        decreases x@.len() - i,
    {
        if x[i] != y[i] {
            proof {
                text_before_equal_heads(x@, y@, i as int);
                text_before_equal_heads(y@, x@, i as int);
                assert(x@.skip(i as int)[0] == x@[i as int]);
                assert(y@.skip(i as int)[0] == y@[i as int]);
            }
            if x[i] < y[i] {
                return Placing::Before;
            } else {
                return Placing::After;
            }
        }
        i += 1;
    }
    proof {
        text_before_equal_heads(x@, y@, i as int);
        text_before_equal_heads(y@, x@, i as int);
    }
    if x.len() < y.len() {
        Placing::Before
    } else if x.len() > y.len() {
        Placing::After
    } else {
        assert(a@ =~= b@);
        Placing::Same
    }
}

/// Puts `x` into a sorted set.
pub fn insert_text(set: &mut Vec<String>, x: &str)
    requires
        ascending(old(set).deep_view()),
    ensures
        ascending(final(set).deep_view()),
        forall|y: Seq<char>|
            #[trigger] listed(final(set).deep_view(), y) <==> (y == x@ || listed(
                old(set).deep_view(),
                y,
            )),
{
    let ghost before = set.deep_view();
    let mut i: usize = 0;
    while i < set.len()
        invariant
            0 <= i <= set@.len(),
            set.deep_view() == before,
            before == old(set).deep_view(),
            ascending(before),
            forall|k: int| 0 <= k < i ==> text_before(#[trigger] before[k], x@),
        decreases set@.len() - i,
    {
        assert(before[i as int] == set@[i as int]@);
        match place(set[i].as_str(), x) {
            Placing::Before => {},
            Placing::Same => {
                assert(listed(before, x@));
                return ;
            },
            Placing::After => {
                set.insert(i, x.to_owned());
                proof {
                    assert(set.deep_view() =~= before.insert(i as int, x@));
                    insertion_keeps_order(before, i as int, x@);
                    insertion_adds(before, i as int, x@);
                }
                return ;
            },
        }
        i += 1;
    }
    set.push(x.to_owned());
    proof {
        assert(set.deep_view() =~= before.insert(before.len() as int, x@));
        insertion_keeps_order(before, before.len() as int, x@);
        insertion_adds(before, before.len() as int, x@);
    }
}

proof fn insertion_keeps_order(list: Seq<Seq<char>>, at: int, x: Seq<char>)
    requires
        ascending(list),
        0 <= at <= list.len(),
        forall|k: int| 0 <= k < at ==> text_before(#[trigger] list[k], x),
        at < list.len() ==> text_before(x, list[at]),
    ensures
        ascending(list.insert(at, x)),
{
    let next = list.insert(at, x);
    assert forall|i: int, j: int| 0 <= i < j < next.len() implies text_before(
        #[trigger] next[i],
        #[trigger] next[j],
    ) by {
        if i < at && j < at {
            assert(text_before(list[i], list[j]));
        } else if i < at && j > at {
            assert(text_before(list[i], list[j - 1]));
        } else if i == at {
            if j - 1 > at {
                assert(text_before(list[at], list[j - 1]));
                text_before_transitive(x, list[at], list[j - 1]);
            }
        } else if i > at {
            assert(text_before(list[i - 1], list[j - 1]));
        }
    }
}

proof fn insertion_adds(list: Seq<Seq<char>>, at: int, x: Seq<char>)
    requires
        0 <= at <= list.len(),
    ensures
        forall|y: Seq<char>| #[trigger] listed(list.insert(at, x), y) <==> (y == x || listed(list, y)),
{
    let next = list.insert(at, x);
    assert forall|y: Seq<char>| #[trigger] listed(next, y) <==> (y == x || listed(list, y)) by {
        if listed(next, y) {
            let i = choose|i: int| 0 <= i < next.len() && #[trigger] next[i] == y;
            if i < at {
                assert(list[i] == y);
            } else if i > at {
                assert(list[i - 1] == y);
            }
        }
        if listed(list, y) {
            let i = choose|i: int| 0 <= i < list.len() && #[trigger] list[i] == y;
            if i < at {
                assert(next[i] == y);
            } else {
                assert(next[i + 1] == y);
            }
        }
        if y == x {
            assert(next[at] == y);
        }
    }
}

// ---------------------------------------------------------------------------------------------
// Paths in order
// ---------------------------------------------------------------------------------------------
/// `a` comes before `b` in the order of their components.
pub open spec fn path_before(a: Seq<char>, b: Seq<char>) -> bool {
    text_before(replace_char(a, '/', '\0'), replace_char(b, '/', '\0'))
}

/// `order` lists each of the first `n` numbers once.
pub open spec fn is_permutation(order: Seq<int>, n: int) -> bool {
    &&& order.len() == n
    &&& order.no_duplicates()
    &&& forall|k: int| 0 <= k < order.len() ==> 0 <= #[trigger] order[k] < n
}

/// `list` is in the order of components.
pub open spec fn paths_ascend(list: Seq<Seq<char>>) -> bool {
    forall|a: int, b: int|
        0 <= a < b < list.len() ==> !path_before(#[trigger] list[b], #[trigger] list[a])
}

/// `out` holds the paths of `all` in the order of their components.
pub open spec fn is_path_sorted(out: Seq<Seq<char>>, all: Seq<Seq<char>>) -> bool {
    paths_ascend(out) && exists|order: Seq<int>| #[trigger]
        is_permutation(order, all.len() as int) && out == arranged(all, order)
}

fn comes_before(a: &str, b: &str) -> (r: bool)
    ensures
        r == path_before(a@, b@),
{
    let x = text_of(&replace_in(&chars_of(a), '/', '\0'));
    let y = text_of(&replace_in(&chars_of(b), '/', '\0'));
    match place(x.as_str(), y.as_str()) {
        Placing::Before => true,
        Placing::Same => {
            proof {
                text_before_irreflexive(x@);
            }
            false
        },
        Placing::After => {
            proof {
                if text_before(x@, y@) {
                    text_before_transitive(x@, y@, x@);
                    text_before_irreflexive(x@);
                }
            }
            false
        },
    }
}

proof fn text_before_irreflexive(a: Seq<char>)
    ensures
        !text_before(a, a),
    decreases a.len(),
{
    if a.len() > 0 {
        text_before_irreflexive(a.drop_first());
    }
}

/// Sorts paths in the order of their components.
pub fn sort_paths(list: Vec<String>) -> (out: Vec<String>)
    ensures
        is_path_sorted(out.deep_view(), list.deep_view()),
{
    let ghost all = list.deep_view();
    let ghost given = list@;
    let mut list = list;
    let mut out: Vec<String> = Vec::new();
    let ghost mut order: Seq<int> = Seq::empty();
    while list.len() > 0
        invariant
            all.len() == given.len(),
            forall|i: int| 0 <= i < all.len() ==> #[trigger] all[i] == given[i]@,
            list@.len() <= given.len(),
            list@ == given.take(list@.len() as int),
            out@.len() == order.len() == given.len() - list@.len(),
            order.no_duplicates(),
            forall|k: int|
                0 <= k < order.len() ==> list@.len() <= #[trigger] order[k] < given.len(),
            forall|k: int| 0 <= k < order.len() ==> out@[k] == given[#[trigger] order[k]],
            paths_ascend(out.deep_view()),
        decreases list@.len(),
    {
        let ghost m = list@.len() - 1;
        let ghost before = out.deep_view();
        if let Some(x) = list.pop() {
            let mut pos: usize = 0;
            while pos < out.len() && !comes_before(x.as_str(), out[pos].as_str())
                invariant
                    0 <= pos <= out@.len(),
                    before == out.deep_view(),
                    forall|k: int| 0 <= k < pos ==> !path_before(x@, #[trigger] before[k]),
                decreases out@.len() - pos,
            {
                pos += 1;
            }
            let ghost text = x@;
            out.insert(pos, x);
            proof {
                assert(list@ =~= given.take(m));
                let next = order.insert(pos as int, m);
                let now = out.deep_view();
                assert(now =~= before.insert(pos as int, text));
                assert forall|a: int, b: int| 0 <= a < b < now.len() implies !path_before(
                    #[trigger] now[b],
                    #[trigger] now[a],
                ) by {
                    let oa = if a < pos {
                        a
                    } else {
                        a - 1
                    };
                    let ob = if b < pos {
                        b
                    } else {
                        b - 1
                    };
                    if a == pos {
                        assert(now[b] == before[b - 1]);
                        if path_before(before[b - 1], text) {
                            text_before_transitive(
                                replace_char(before[b - 1], '/', '\0'),
                                replace_char(text, '/', '\0'),
                                replace_char(before[pos as int], '/', '\0'),
                            );
                            if b - 1 == pos {
                                text_before_irreflexive(
                                    replace_char(before[pos as int], '/', '\0'),
                                );
                            } else {
                                assert(!path_before(before[b - 1], before[pos as int]));
                            }
                        }
                    } else if b == pos {
                        assert(now[a] == before[a]);
                    } else {
                        assert(now[a] == before[oa] && now[b] == before[ob]);
                        assert(!path_before(before[ob], before[oa]));
                    }
                }
                assert forall|a: int, b: int|
                    0 <= a < next.len() && 0 <= b < next.len() && a != b implies next[a]
                    != next[b] by {
                    let oa = if a < pos {
                        a
                    } else {
                        a - 1
                    };
                    let ob = if b < pos {
                        b
                    } else {
                        b - 1
                    };
                    if a != pos && b != pos {
                        assert(next[a] == order[oa] && next[b] == order[ob]);
                    } else if a == pos {
                        assert(next[b] == order[ob]);
                    } else {
                        assert(next[a] == order[oa]);
                    }
                }
                order = next;
            }
        }
    }
    proof {
        assert(is_permutation(order, all.len() as int));
        assert(out.deep_view() =~= arranged(all, order));
    }
    out
}

} // verus!
