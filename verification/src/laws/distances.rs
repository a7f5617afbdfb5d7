//! The distance between two texts is the least number of single edits between them.
use vstd::prelude::*;
use vstd::utf8::encode_utf8;

use crate::cluster::{edit_distance, edit_distance_triangle, edit_distance_zero_iff_equal, similar};

verus! {

/// One byte of `a` is changed, added or taken away to give `b`.
pub open spec fn is_one_edit(a: Seq<u8>, b: Seq<u8>) -> bool {
    ||| exists|i: int, c: u8| 0 <= i < a.len() && b == #[trigger] a.update(i, c)
    ||| exists|i: int, c: u8| 0 <= i <= a.len() && b == #[trigger] a.insert(i, c)
    ||| exists|i: int| 0 <= i < a.len() && b == #[trigger] a.remove(i)
}

/// `steps` leads from `a` to `b`, one edit at a time.
pub open spec fn are_edits(steps: Seq<Seq<u8>>, a: Seq<u8>, b: Seq<u8>) -> bool {
    &&& steps.len() > 0
    &&& steps[0] == a
    &&& steps.last() == b
    &&& forall|k: int|
        0 <= k < steps.len() - 1 ==> is_one_edit(#[trigger] steps[k], steps[k + 1])
}

proof fn one_more_byte(a: Seq<u8>, b: Seq<u8>, c: u8)
    ensures
        edit_distance(a.push(c), b.push(c)) <= edit_distance(a, b),
{
    assert(a.push(c).drop_last() =~= a);
    assert(b.push(c).drop_last() =~= b);
}

/// The same ending on both sides adds nothing.
proof fn same_ending(a: Seq<u8>, b: Seq<u8>, end: Seq<u8>)
    ensures
        edit_distance(a + end, b + end) <= edit_distance(a, b),
    decreases end.len(),
{
    if end.len() == 0 {
        assert(a + end =~= a && b + end =~= b);
    } else {
        let rest = end.drop_last();
        same_ending(a, b, rest);
        one_more_byte(a + rest, b + rest, end.last());
        assert((a + rest).push(end.last()) =~= a + end);
        assert((b + rest).push(end.last()) =~= b + end);
    }
}

proof fn no_distance_to_itself(a: Seq<u8>)
    ensures
        edit_distance(a, a) == 0,
{
    edit_distance_zero_iff_equal(a, a);
}

proof fn last_byte_counts_once(a: Seq<u8>, c: u8, d: u8)
    ensures
        edit_distance(a.push(c), a.push(d)) <= 1,
        edit_distance(a, a.push(c)) <= 1,
        edit_distance(a.push(c), a) <= 1,
{
    no_distance_to_itself(a);
    assert(a.push(c).drop_last() =~= a);
    assert(a.push(d).drop_last() =~= a);
    if a.len() == 0 {
        assert(a =~= Seq::empty());
        assert(edit_distance(a.push(c), a.push(d)) <= 1);
    }
}

proof fn one_edit_is_one(a: Seq<u8>, b: Seq<u8>)
    requires
        is_one_edit(a, b),
    ensures
        edit_distance(a, b) <= 1,
{
    if exists|i: int, c: u8| 0 <= i < a.len() && b == #[trigger] a.update(i, c) {
        let (i, c) = choose|i: int, c: u8| 0 <= i < a.len() && b == #[trigger] a.update(i, c);
        let head = a.take(i);
        let end = a.skip(i + 1);
        last_byte_counts_once(head, a[i], c);
        same_ending(head.push(a[i]), head.push(c), end);
        assert(head.push(a[i]) + end =~= a);
        assert(head.push(c) + end =~= b);
    } else if exists|i: int, c: u8| 0 <= i <= a.len() && b == #[trigger] a.insert(i, c) {
        let (i, c) = choose|i: int, c: u8| 0 <= i <= a.len() && b == #[trigger] a.insert(i, c);
        let head = a.take(i);
        let end = a.skip(i);
        last_byte_counts_once(head, c, c);
        same_ending(head, head.push(c), end);
        assert(head + end =~= a);
        assert(head.push(c) + end =~= b);
    } else {
        let i = choose|i: int| 0 <= i < a.len() && b == #[trigger] a.remove(i);
        let head = a.take(i);
        let end = a.skip(i + 1);
        last_byte_counts_once(head, a[i], a[i]);
        same_ending(head.push(a[i]), head, end);
        assert(head.push(a[i]) + end =~= a);
        assert(head + end =~= b);
    }
}

/// No way of editing one text into another is shorter than their distance.
pub proof fn no_shorter_way(steps: Seq<Seq<u8>>, a: Seq<u8>, b: Seq<u8>)
    requires
        are_edits(steps, a, b),
    ensures
        edit_distance(a, b) <= steps.len() - 1,
    decreases steps.len(),
{
    if steps.len() == 1 {
        no_distance_to_itself(a);
    } else {
        let rest = steps.drop_last();
        let c = rest.last();
        assert forall|k: int| 0 <= k < rest.len() - 1 implies is_one_edit(
            #[trigger] rest[k],
            rest[k + 1],
        ) by {
            assert(rest[k] == steps[k]);
        }
        no_shorter_way(rest, a, c);
        assert(is_one_edit(steps[steps.len() - 2], steps[steps.len() - 2 + 1]));
        one_edit_is_one(c, b);
        edit_distance_triangle(a, c, b);
    }
}

proof fn edits_of_one(a: Seq<u8>) -> (steps: Seq<Seq<u8>>)
    ensures
        are_edits(steps, a, a),
        steps.len() == 1,
{
    seq![a]
}

proof fn one_more_edit(steps: Seq<Seq<u8>>, a: Seq<u8>, b: Seq<u8>, c: Seq<u8>) -> (more: Seq<
    Seq<u8>,
>)
    requires
        are_edits(steps, a, b),
        is_one_edit(b, c),
    ensures
        are_edits(more, a, c),
        more.len() == steps.len() + 1,
{
    let more = steps.push(c);
    assert forall|k: int| 0 <= k < more.len() - 1 implies is_one_edit(
        #[trigger] more[k],
        more[k + 1],
    ) by {
        if k < steps.len() - 1 {
            assert(is_one_edit(steps[k], steps[k + 1]));
        }
    }
    more
}

proof fn one_edit_before(steps: Seq<Seq<u8>>, z: Seq<u8>, a: Seq<u8>, b: Seq<u8>) -> (more: Seq<
    Seq<u8>,
>)
    requires
        are_edits(steps, a, b),
        is_one_edit(z, a),
    ensures
        are_edits(more, z, b),
        more.len() == steps.len() + 1,
{
    let more = seq![z] + steps;
    assert forall|k: int| 0 <= k < more.len() - 1 implies is_one_edit(
        #[trigger] more[k],
        more[k + 1],
    ) by {
        if k > 0 {
            assert(is_one_edit(steps[k - 1], steps[k - 1 + 1]));
        }
    }
    more
}

proof fn edits_keep_an_ending(a: Seq<u8>, b: Seq<u8>, c: u8)
    requires
        is_one_edit(a, b),
    ensures
        is_one_edit(a.push(c), b.push(c)),
{
    if exists|i: int, d: u8| 0 <= i < a.len() && b == #[trigger] a.update(i, d) {
        let (i, d) = choose|i: int, d: u8| 0 <= i < a.len() && b == #[trigger] a.update(i, d);
        assert(b.push(c) =~= a.push(c).update(i, d));
    } else if exists|i: int, d: u8| 0 <= i <= a.len() && b == #[trigger] a.insert(i, d) {
        let (i, d) = choose|i: int, d: u8| 0 <= i <= a.len() && b == #[trigger] a.insert(i, d);
        assert(b.push(c) =~= a.push(c).insert(i, d));
    } else {
        let i = choose|i: int| 0 <= i < a.len() && b == #[trigger] a.remove(i);
        assert(b.push(c) =~= a.push(c).remove(i));
    }
}

proof fn edits_with_an_ending(steps: Seq<Seq<u8>>, a: Seq<u8>, b: Seq<u8>, c: u8) -> (more: Seq<
    Seq<u8>,
>)
    requires
        are_edits(steps, a, b),
    ensures
        are_edits(more, a.push(c), b.push(c)),
        more.len() == steps.len(),
{
    let more = Seq::new(steps.len(), |k: int| steps[k].push(c));
    assert forall|k: int| 0 <= k < more.len() - 1 implies is_one_edit(
        #[trigger] more[k],
        more[k + 1],
    ) by {
        assert(is_one_edit(steps[k], steps[k + 1]));
        edits_keep_an_ending(steps[k], steps[k + 1], c);
    }
    more
}

proof fn taking_the_last(a: Seq<u8>)
    requires
        a.len() > 0,
    ensures
        is_one_edit(a, a.drop_last()),
        is_one_edit(a.drop_last(), a),
{
    let n = a.len() - 1;
    assert(a.drop_last() =~= a.remove(n));
    assert(a =~= a.drop_last().insert(n, a.last()));
}

/// There is a way of editing one text into another in as many edits as their distance says.
pub proof fn some_way_is_that_short(a: Seq<u8>, b: Seq<u8>) -> (steps: Seq<Seq<u8>>)
    ensures
        are_edits(steps, a, b),
        steps.len() == edit_distance(a, b) + 1,
    decreases a.len() + b.len(),
{
    if a.len() == 0 && b.len() == 0 {
        assert(a =~= b);
        edits_of_one(a)
    } else if a.len() == 0 {
        let steps = some_way_is_that_short(a, b.drop_last());
        taking_the_last(b);
        one_more_edit(steps, a, b.drop_last(), b)
    } else if b.len() == 0 {
        let steps = some_way_is_that_short(a.drop_last(), b);
        taking_the_last(a);
        one_edit_before(steps, a, a.drop_last(), b)
    } else if edit_distance(a, b) == edit_distance(a.drop_last(), b) + 1 {
        let steps = some_way_is_that_short(a.drop_last(), b);
        taking_the_last(a);
        one_edit_before(steps, a, a.drop_last(), b)
    } else if edit_distance(a, b) == edit_distance(a, b.drop_last()) + 1 {
        let steps = some_way_is_that_short(a, b.drop_last());
        taking_the_last(b);
        one_more_edit(steps, a, b.drop_last(), b)
    } else {
        let p = a.drop_last();
        let q = b.drop_last();
        let short = some_way_is_that_short(p, q);
        let steps = edits_with_an_ending(short, p, q, a.last());
        assert(p.push(a.last()) =~= a);
        if a.last() == b.last() {
            assert(q.push(a.last()) =~= b);
            steps
        } else {
            let c = q.push(a.last());
            assert(b =~= c.update(q.len() as int, b.last()));
            one_more_edit(steps, a, c, b)
        }
    }
}

/// Two different messages are similar where three tenths of the bytes of the longer one, or fewer,
/// have to be edited. An empty message is similar to itself alone.
pub proof fn similar_messages_need_few_edits(a: Seq<char>, b: Seq<char>, edits: Seq<Seq<u8>>)
    requires
        a.len() > 0,
        b.len() > 0,
        are_edits(edits, encode_utf8(a), encode_utf8(b)),
        10 * (edits.len() - 1) <= 3 * encode_utf8(a).len() || 10 * (edits.len() - 1) <= 3
            * encode_utf8(b).len(),
    ensures
        similar(a, b),
{
    no_shorter_way(edits, encode_utf8(a), encode_utf8(b));
}

/// Where more than three tenths of both messages have to be edited, they are not similar.
pub proof fn dissimilar_messages_need_many_edits(a: Seq<char>, b: Seq<char>)
    requires
        a != b,
        10 * edit_distance(encode_utf8(a), encode_utf8(b)) > 3 * encode_utf8(a).len(),
        10 * edit_distance(encode_utf8(a), encode_utf8(b)) > 3 * encode_utf8(b).len(),
    ensures
        !similar(a, b),
{
}

/// Similarity is mutual, every message is similar to itself, and an empty one to no other.
pub proof fn similarity_is_mutual(a: Seq<char>, b: Seq<char>)
    ensures
        similar(a, a),
        similar(a, b) == similar(b, a),
        a.len() == 0 && b.len() > 0 ==> !similar(a, b),
{
    crate::cluster::edit_distance_symmetric(encode_utf8(a), encode_utf8(b));
}

} // verus!
