//! How failures form clusters.
use vstd::prelude::*;
use vstd::utf8::encode_utf8;

use crate::cluster::{
    clip, edit_distance, every_failure_has_one_cluster, founder_before, founder_is_first, founders,
    home, is_cluster, is_clustering, is_fingerprint, is_founder, joins, members, names_of, weight,
    weights, FailedTest, FailureCluster, Fingerprint,
};
use crate::ranking::{is_ranking, precedes, ranking_is_complete};
use crate::text::trim;

verus! {

/// `to` says for each failure which of the clusters it is in: clusters hold the names of their
/// failures in order, and count them.
pub open spec fn is_division(
    out: Seq<FailureCluster>,
    f: Seq<FailedTest>,
    to: Seq<int>,
) -> bool {
    &&& to.len() == f.len()
    &&& forall|i: int| 0 <= i < to.len() ==> 0 <= #[trigger] to[i] < out.len()
    &&& forall|k: int|
        0 <= k < out.len() ==> are_in(f, to, k, (#[trigger] out[k]).test_names.deep_view())
}

/// `names` are the names of the failures that `to` puts into cluster `k`, in order.
pub open spec fn are_in(
    f: Seq<FailedTest>,
    to: Seq<int>,
    k: int,
    names: Seq<Seq<char>>,
) -> bool {
    exists|m: Seq<int>|
        {
            &&& #[trigger] picks_all(m, to, k)
            &&& names.len() == m.len()
            &&& forall|a: int| 0 <= a < m.len() ==> #[trigger] names[a] == f[m[a]].name@
        }
}

/// `m` lists the positions of `k` in `to`, each once and in order.
pub open spec fn picks_all(m: Seq<int>, to: Seq<int>, k: int) -> bool {
    &&& forall|a: int, b: int| 0 <= a < b < m.len() ==> #[trigger] m[a] < #[trigger] m[b]
    &&& forall|a: int| 0 <= a < m.len() ==> 0 <= #[trigger] m[a] < to.len() && to[m[a]] == k
    &&& forall|i: int| 0 <= i < to.len() && #[trigger] to[i] == k ==> m.contains(i)
}

/// Two failures with fingerprints `a` and `b` resemble each other: without messages where they are
/// of one file, with messages where these are the same, or where at most three tenths of the bytes
/// of the longer one have to be edited.
pub open spec fn resemble(a: Fingerprint, b: Fingerprint) -> bool {
    match (a, b) {
        (Fingerprint::Silent(x), Fingerprint::Silent(y)) => x@ == y@,
        (Fingerprint::Message(x), Fingerprint::Message(y)) => x@ == y@ || (x@.len() > 0 && y@.len()
            > 0 && {
            let d = 10 * edit_distance(encode_utf8(x@), encode_utf8(y@));
            d <= 3 * encode_utf8(x@).len() || d <= 3 * encode_utf8(y@).len()
        }),
        _ => false,
    }
}

proof fn joining_is_resembling(a: Fingerprint, b: Fingerprint)
    ensures
        joins(a, b) == resemble(a, b),
{
}

// ---------------------------------------------------------------------------------------------
// Members
// ---------------------------------------------------------------------------------------------
proof fn members_are_all(p: Seq<Fingerprint>, l: int, n: int)
    requires
        0 <= n <= p.len(),
    ensures
        forall|a: int, b: int|
            0 <= a < b < members(p, l, n).len() ==> #[trigger] members(p, l, n)[a]
                < #[trigger] members(p, l, n)[b],
        forall|a: int|
            0 <= a < members(p, l, n).len() ==> 0 <= #[trigger] members(p, l, n)[a] < n && home(
                p,
                members(p, l, n)[a],
            ) == l,
        forall|i: int| 0 <= i < n && #[trigger] home(p, i) == l ==> members(p, l, n).contains(i),
    decreases n,
{
    if n > 0 {
        members_are_all(p, l, n - 1);
        let q = members(p, l, n - 1);
        let m = members(p, l, n);
        assert forall|a: int| 0 <= a < m.len() implies 0 <= #[trigger] m[a] < n && home(p, m[a])
            == l by {
            if a < q.len() {
                assert(m[a] == q[a]);
            }
        }
        assert forall|a: int, b: int| 0 <= a < b < m.len() implies #[trigger] m[a]
            < #[trigger] m[b] by {
            assert(m[a] == q[a]);
            if b < q.len() {
                assert(m[b] == q[b]);
            }
        }
        assert forall|i: int| 0 <= i < n && #[trigger] home(p, i) == l implies m.contains(i) by {
            if i < n - 1 {
                let a = choose|a: int| 0 <= a < q.len() && q[a] == i;
                assert(m[a] == i);
            } else {
                assert(m[q.len() as int] == i);
            }
        }
    }
}

proof fn founders_ascend(p: Seq<Fingerprint>, n: int)
    requires
        0 <= n <= p.len(),
    ensures
        forall|a: int, b: int|
            0 <= a < b < founders(p, n).len() ==> #[trigger] founders(p, n)[a] < #[trigger] founders(
                p,
                n,
            )[b],
        forall|a: int|
            0 <= a < founders(p, n).len() ==> 0 <= #[trigger] founders(p, n)[a] < n && is_founder(
                p,
                founders(p, n)[a],
            ),
    decreases n,
{
    if n > 0 {
        founders_ascend(p, n - 1);
        let q = founders(p, n - 1);
        let m = founders(p, n);
        assert forall|a: int| 0 <= a < m.len() implies 0 <= #[trigger] m[a] < n && is_founder(
            p,
            m[a],
        ) by {
            if a < q.len() {
                assert(m[a] == q[a]);
            }
        }
        assert forall|a: int, b: int| 0 <= a < b < m.len() implies #[trigger] m[a]
            < #[trigger] m[b] by {
            assert(m[a] == q[a]);
            if b < q.len() {
                assert(m[b] == q[b]);
            }
        }
    }
}

/// Which cluster of `out` the founder `l` has, where `order` ranks the founders.
spec fn seat(p: Seq<Fingerprint>, order: Seq<int>, l: int) -> int {
    choose|k: int| 0 <= k < order.len() && founders(p, p.len() as int)[order[k]] == l
}

proof fn seats_are_found(p: Seq<Fingerprint>, order: Seq<int>, l: int)
    requires
        is_ranking(weights(p), order),
        founders(p, p.len() as int).contains(l),
    ensures
        0 <= seat(p, order, l) < order.len(),
        founders(p, p.len() as int)[order[seat(p, order, l)]] == l,
{
    let fs = founders(p, p.len() as int);
    let j = choose|j: int| 0 <= j < fs.len() && fs[j] == l;
    ranking_is_complete(weights(p), order, j);
    let k = choose|k: int| 0 <= k < order.len() && order[k] == j;
    assert(0 <= k < order.len() && fs[order[k]] == l);
}

/// Every failure is in one cluster, and a cluster holds and counts exactly its failures. A failure
/// resembles the first one of its cluster, and none of the first ones of clusters that were opened
/// before. Larger clusters come first.
pub proof fn clusters_divide_the_failures(
    out: Seq<FailureCluster>,
    f: Seq<FailedTest>,
    p: Seq<Fingerprint>,
) -> (to: Seq<int>)
    requires
        is_clustering(out, f, p),
        f.len() == p.len(),
        p.len() <= u32::MAX,
    ensures
        is_division(out, f, to),
        forall|k: int|
            0 <= k < out.len() ==> (#[trigger] out[k]).count == out[k].test_names@.len()
                && out[k].similarity == 70,
        forall|a: int, b: int|
            0 <= a < b < out.len() ==> (#[trigger] out[a]).count >= (#[trigger] out[b]).count,
        forall|i: int|
            0 <= i < p.len() ==> resembles_first(p, to, #[trigger] to[i], i),
{
    let n = p.len() as int;
    let l = founders(p, n);
    let order = choose|order: Seq<int>| #[trigger]
        is_ranking(weights(p), order) && out.len() == l.len() && forall|k: int|
            0 <= k < l.len() ==> is_cluster(#[trigger] out[k], f, p, l[order[k]]);
    let to = Seq::new(p.len(), |i: int| seat(p, order, home(p, i)));
    founders_ascend(p, n);
    assert forall|i: int| 0 <= i < n implies 0 <= #[trigger] to[i] < out.len() && l[order[to[i]]]
        == home(p, i) by {
        every_failure_has_one_cluster(p, i, home(p, i));
        seats_are_found(p, order, home(p, i));
    }
    assert forall|i: int, k: int| 0 <= i < n && 0 <= k < out.len() implies (#[trigger] to[i] == k
        <==> home(p, i) == #[trigger] l[order[k]]) by {
        if home(p, i) == l[order[k]] {
            let a = order[to[i]];
            let b = order[k];
            if a < b {
                assert(l[a] < l[b]);
            } else if b < a {
                assert(l[b] < l[a]);
            }
            if to[i] < k {
                assert(precedes(weights(p), order[to[i]], order[k]));
            } else if k < to[i] {
                assert(precedes(weights(p), order[k], order[to[i]]));
            }
        }
    }
    assert forall|k: int| 0 <= k < out.len() implies are_in(
        f,
        to,
        k,
        (#[trigger] out[k]).test_names.deep_view(),
    ) && out[k].count == out[k].test_names@.len() && out[k].similarity == 70 && out[k].count
        == members(p, l[order[k]], n).len() by {
        assert(is_cluster(out[k], f, p, l[order[k]]));
        let m = members(p, l[order[k]], n);
        members_are_all(p, l[order[k]], n);
        assert forall|i: int| 0 <= i < to.len() && #[trigger] to[i] == k implies m.contains(i) by {
            assert(home(p, i) == l[order[k]]);
        }
        assert forall|a: int| 0 <= a < m.len() implies 0 <= #[trigger] m[a] < to.len() && to[m[a]]
            == k by {
            assert(home(p, m[a]) == l[order[k]]);
        }
        assert(picks_all(m, to, k));
        ascending_fits(m, n);
        assert(names_of(f, m).len() == m.len());
        assert(out[k].test_names.deep_view().len() == out[k].test_names@.len());
    }
    assert forall|a: int, b: int| 0 <= a < b < out.len() implies (#[trigger] out[a]).count >= (
    #[trigger] out[b]).count by {
        assert(precedes(weights(p), order[a], order[b]));
        let x = members(p, l[order[a]], n);
        let y = members(p, l[order[b]], n);
        members_are_all(p, l[order[a]], n);
        members_are_all(p, l[order[b]], n);
        ascending_fits(x, n);
        ascending_fits(y, n);
        assert(weights(p)[order[a]] == weight(p, l[order[a]]));
        assert(weights(p)[order[b]] == weight(p, l[order[b]]));
    }
    assert forall|i: int| 0 <= i < n implies resembles_first(p, to, #[trigger] to[i], i) by {
        first_of_cluster(p, order, l, to, i);
    }
    to
}

/// The first failure of cluster `k`, where it has one.
pub open spec fn is_first(to: Seq<int>, k: int, i: int) -> bool {
    0 <= i < to.len() && to[i] == k && forall|j: int| 0 <= j < i ==> #[trigger] to[j] != k
}

/// Failure `i`, which is in cluster `k`, is the first failure there or resembles it, and resembles
/// the first failure of no cluster that was opened before.
pub open spec fn resembles_first(p: Seq<Fingerprint>, to: Seq<int>, k: int, i: int) -> bool {
    forall|a: int|
        is_first(to, k, a) ==> {
            &&& a == i || resemble(p[a], p[i])
            &&& forall|b: int|
                0 <= b < a && #[trigger] is_first(to, to[b], b) ==> !resemble(p[b], p[i])
        }
}

proof fn ascending_fits(m: Seq<int>, n: int)
    requires
        0 <= n,
        forall|a: int, b: int| 0 <= a < b < m.len() ==> #[trigger] m[a] < #[trigger] m[b],
        forall|a: int| 0 <= a < m.len() ==> 0 <= #[trigger] m[a] < n,
    ensures
        m.len() <= n,
    decreases m.len(),
{
    if m.len() > 0 {
        let q = m.drop_last();
        assert forall|a: int| 0 <= a < q.len() implies 0 <= #[trigger] q[a] < m.last() by {
            assert(q[a] == m[a]);
            assert(m[a] < m[m.len() - 1]);
        }
        assert forall|a: int, b: int| 0 <= a < b < q.len() implies #[trigger] q[a]
            < #[trigger] q[b] by {
            assert(q[a] == m[a] && q[b] == m[b]);
        }
        assert(0 <= m[m.len() - 1] < n);
        ascending_fits(q, m.last());
    }
}

proof fn first_of_cluster(
    p: Seq<Fingerprint>,
    order: Seq<int>,
    l: Seq<int>,
    to: Seq<int>,
    i: int,
)
    requires
        is_ranking(weights(p), order),
        l == founders(p, p.len() as int),
        to.len() == p.len(),
        0 <= i < p.len(),
        forall|j: int|
            0 <= j < p.len() ==> 0 <= #[trigger] to[j] < order.len() && l[order[to[j]]] == home(p, j),
        forall|j: int, k: int|
            0 <= j < p.len() && 0 <= k < order.len() ==> (#[trigger] to[j] == k <==> home(p, j)
                == #[trigger] l[order[k]]),
    ensures
        resembles_first(p, to, to[i], i),
{
    let k = to[i];
    assert forall|a: int| is_first(to, k, a) implies {
        &&& a == i || resemble(p[a], p[i])
        &&& forall|b: int| 0 <= b < a && #[trigger] is_first(to, to[b], b) ==> !resemble(p[b], p[i])
    } by {
        firsts_are_founders(p, order, l, to, a);
        assert(home(p, a) == home(p, i)) by {
            assert(to[a] == k);
            assert(home(p, a) == l[order[k]]);
            assert(home(p, i) == l[order[k]]);
        }
        founder_is_first(p, i, i);
        assert(home(p, i) == a);
        if a != i {
            joining_is_resembling(p[a], p[i]);
        }
        assert forall|b: int| 0 <= b < a && #[trigger] is_first(to, to[b], b) implies !resemble(
            p[b],
            p[i],
        ) by {
            firsts_are_founders(p, order, l, to, b);
            joining_is_resembling(p[b], p[i]);
            if joins(p[b], p[i]) {
                assert(founder_before(p, i, b + 1) is Some);
                founder_is_first(p, i, a);
            }
        }
    }
}

proof fn firsts_are_founders(
    p: Seq<Fingerprint>,
    order: Seq<int>,
    l: Seq<int>,
    to: Seq<int>,
    a: int,
)
    requires
        l == founders(p, p.len() as int),
        to.len() == p.len(),
        0 <= a < p.len(),
        is_first(to, to[a], a),
        forall|j: int|
            0 <= j < p.len() ==> 0 <= #[trigger] to[j] < order.len() && l[order[to[j]]] == home(p, j),
        forall|j: int, k: int|
            0 <= j < p.len() && 0 <= k < order.len() ==> (#[trigger] to[j] == k <==> home(p, j)
                == #[trigger] l[order[k]]),
    ensures
        home(p, a) == a,
        is_founder(p, a),
{
    founder_is_first(p, a, a);
    let h = home(p, a);
    if h != a {
        founder_is_first(p, h, h);
        assert(home(p, h) == h);
        assert(to[h] == to[a]) by {
            assert(l[order[to[a]]] == h);
        }
    }
}

/// Failures with one fingerprint are in one cluster.
pub proof fn one_fingerprint_one_cluster(p: Seq<Fingerprint>, i: int, j: int)
    requires
        0 <= i < j < p.len(),
        p[i] == p[j] || (p[i] is Message && p[j] is Message && p[i]->Message_0@ == p[j]->Message_0@)
            || (p[i] is Silent && p[j] is Silent && p[i]->Silent_0@ == p[j]->Silent_0@),
    ensures
        home(p, i) == home(p, j),
        members(p, home(p, i), p.len() as int).contains(i),
        members(p, home(p, i), p.len() as int).contains(j),
{
    founder_is_first(p, i, i);
    founder_is_first(p, j, j);
    let h = home(p, i);
    assert(joins(p[h], p[j]));
    alike_until(p, i, j, h);
    every_failure_has_one_cluster(p, i, h);
    assert(is_founder(p, h));
    assert(founder_before(p, j, h) is None);
    reveal_with_fuel(founder_before, 2);
    assert(founder_before(p, j, h + 1) == Some(h));
    founder_is_first(p, j, h + 1);
    every_failure_has_one_cluster(p, i, h);
    every_failure_has_one_cluster(p, j, h);
}

proof fn alike_until(p: Seq<Fingerprint>, i: int, j: int, k: int)
    requires
        0 <= k <= i < j < p.len(),
        forall|a: int| #[trigger] joins(p[a], p[i]) == joins(p[a], p[j]),
        founder_before(p, i, k) is None,
    ensures
        founder_before(p, j, k) is None,
    decreases k,
{
    if k > 0 {
        alike_until(p, i, j, k - 1);
        assert(joins(p[k - 1], p[i]) == joins(p[k - 1], p[j]));
    }
}

/// What the pattern of a cluster is: the fingerprint of the first failure in it.
pub proof fn patterns_are_fingerprints(
    c: FailureCluster,
    f: Seq<FailedTest>,
    p: Seq<Fingerprint>,
    l: int,
)
    requires
        is_cluster(c, f, p, l),
    ensures
        p[l] is Message ==> c.pattern@ == p[l]->Message_0@,
        p[l] is Silent ==> c.pattern@ == "Failed tests in "@ + p[l]->Silent_0@
            + " (no error message captured)"@,
{
}

/// A fingerprint is a message of at most 500 bytes, or the file of a failure whose message is
/// blank.
pub proof fn fingerprints_are_short(print: Fingerprint, f: FailedTest)
    requires
        is_fingerprint(print, f),
    ensures
        trim(f.error@).len() > 0 <==> print is Message,
        print is Message ==> encode_utf8(print->Message_0@).len() <= 500,
        print is Silent && f.file_path@.len() > 0 ==> print->Silent_0@ == f.file_path@,
        print is Silent && f.file_path@.len() == 0 ==> print->Silent_0@ == "(unknown file)"@,
{
    if print is Message {
        clips_fit(crate::cluster::normalized(f.error@), 500);
    }
}

/// A text is cut to its longest prefix of at most `max` bytes: it fits, it stays whole where it
/// fits already, and one more character would be too much.
pub proof fn clips_fit(s: Seq<char>, max: nat)
    ensures
        encode_utf8(clip(s, max)).len() <= max,
        exists|n: int| 0 <= n <= s.len() && clip(s, max) == #[trigger] s.take(n),
        encode_utf8(s).len() <= max ==> clip(s, max) == s,
        encode_utf8(s).len() > max ==> clip(s, max).len() < s.len() && encode_utf8(
            s.take(clip(s, max).len() as int + 1),
        ).len() > max,
    decreases s.len(),
{
    if s.len() == 0 {
        assert(encode_utf8(s).len() == 0);
        assert(s =~= s.take(0));
    } else if encode_utf8(s).len() <= max {
        assert(s =~= s.take(s.len() as int));
    } else {
        let q = s.drop_last();
        clips_fit(q, max);
        let n = choose|n: int| 0 <= n <= q.len() && clip(q, max) == #[trigger] q.take(n);
        assert(q.take(n) =~= s.take(n));
        if encode_utf8(q).len() <= max {
            assert(s.take(q.len() as int + 1) =~= s);
        } else {
            assert(q.take(clip(q, max).len() as int + 1) =~= s.take(clip(q, max).len() as int + 1));
        }
    }
}

} // verus!
