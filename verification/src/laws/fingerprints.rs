//! What the fingerprint of an error message does not depend on.
use vstd::prelude::*;

use crate::cluster::{are_forms, is_normalization};
use crate::pattern::{
    breaks_off, broke_off, holds, holds_location, hyphens_apart, is_address, is_beyond, is_id,
    is_line, is_number, is_script, is_timestamp, is_uuid, is_way, marks_address, marks_id, spaced,
    starts_number,
};
use crate::text::{is_space, trim, trim_by, trim_end_by, trim_start_by};

verus! {

/// All white space in `s` is single spaces.
pub open spec fn is_single_spaced(s: Seq<char>) -> bool {
    forall|k: int|
        0 <= k < s.len() && is_space(#[trigger] s[k]) ==> s[k] == ' ' && (k == 0 || !is_space(
            s[k - 1],
        ))
}

/// `s` holds neither a time nor a universally unique identifier.
pub open spec fn is_undated(s: Seq<char>) -> bool {
    !hyphens_apart(s, 5) && !hyphens_apart(s, 3)
}

/// Nothing in `s` varies from one occurrence of a failure to the next.
pub open spec fn is_settled(s: Seq<char>) -> bool {
    &&& is_single_spaced(s)
    &&& is_undated(s)
    &&& !s.contains('/')
    &&& !marks_id(s)
    &&& !starts_number(s)
    &&& !marks_address(s)
}

// ---------------------------------------------------------------------------------------------
// Forms of a message
// ---------------------------------------------------------------------------------------------
proof fn single_spaces_stay(s: Seq<char>)
    requires
        is_single_spaced(s),
    ensures
        spaced(s, " "@) == s,
    decreases s.len(),
{
    reveal_strlit(" ");
    if s.len() > 0 {
        let q = s.drop_last();
        assert forall|k: int| 0 <= k < q.len() && is_space(#[trigger] q[k]) implies q[k] == ' ' && (k
            == 0 || !is_space(q[k - 1])) by {
            assert(q[k] == s[k]);
            if k > 0 {
                assert(q[k - 1] == s[k - 1]);
            }
        }
        single_spaces_stay(q);
        let n = s.len() - 1;
        if is_space(s[n]) {
            assert(q + " "@ =~= s);
        } else {
            assert(q.push(s.last()) =~= s);
        }
    }
}

/// The placeholders are inserted as they stand.
proof fn placeholders_are_literal()
    ensures
        !" "@.contains('$'),
        !"<uuid>"@.contains('$'),
        !"<timestamp>"@.contains('$'),
        !"id=<id>"@.contains('$'),
        !"<id>"@.contains('$'),
        !"<address>"@.contains('$'),
{
    reveal_strlit(" ");
    reveal_strlit("<uuid>");
    reveal_strlit("<timestamp>");
    reveal_strlit("id=<id>");
    reveal_strlit("<id>");
    reveal_strlit("<address>");
}

/// The forms that follow depend on nothing but the form that they start from.
proof fn forms_follow(s: Seq<Seq<char>>, t: Seq<Seq<char>>, k: int)
    requires
        are_forms(s),
        are_forms(t),
        0 <= k <= 7,
        s[k] == t[k],
    ensures
        s[8] == t[8],
{
    if k <= 0 {
        assert(s[1] == t[1]);
    }
    if k <= 1 {
        assert(s[2] == t[2]);
    }
    if k <= 2 {
        assert(s[3] == t[3]);
    }
    if k <= 3 {
        assert(s[4] == t[4]);
    }
    if k <= 4 {
        assert(s[5] == t[5]);
    }
    if k <= 5 {
        assert(s[6] == t[6]);
    }
    if k <= 6 {
        assert(s[7] == t[7]);
    }
}

/// How far a message comes unchanged.
proof fn early_forms(s: Seq<Seq<char>>)
    requires
        are_forms(s),
    ensures
        is_single_spaced(s[0]) ==> s[1] == s[0],
        is_single_spaced(s[0]) && !hyphens_apart(s[0], 5) ==> s[2] == s[0],
        is_single_spaced(s[0]) && is_undated(s[0]) ==> s[3] == s[0],
        is_single_spaced(s[0]) && is_undated(s[0]) && !s[0].contains('/') ==> s[4] == s[0],
        is_single_spaced(s[0]) && is_undated(s[0]) && !s[0].contains('/') && !marks_id(s[0])
            ==> s[5] == s[0],
        is_single_spaced(s[0]) && is_undated(s[0]) && !s[0].contains('/') && !marks_id(s[0])
            && !starts_number(s[0]) ==> s[6] == s[0],
{
    placeholders_are_literal();
    if is_single_spaced(s[0]) {
        single_spaces_stay(s[0]);
    }
}

/// A settled form stays.
proof fn late_forms(s: Seq<Seq<char>>, k: int)
    requires
        are_forms(s),
        1 <= k <= 7,
        is_settled(s[k]),
    ensures
        s[8] == s[k],
{
    placeholders_are_literal();
    single_spaces_stay(s[k]);
    let t = s[k];
    if k <= 1 {
        assert(s[2] == t);
    }
    if k <= 2 {
        assert(s[3] == t);
    }
    if k <= 3 {
        assert(s[4] == t);
    }
    if k <= 4 {
        assert(s[5] == t);
    }
    if k <= 5 {
        assert(s[6] == t);
    }
    if k <= 6 {
        assert(s[7] == t);
    }
}

spec fn forms_of(m: Seq<char>, r: Seq<char>) -> Seq<Seq<char>> {
    choose|s: Seq<Seq<char>>| #[trigger] are_forms(s) && s[0] == m && r == trim(s[8])
}

/// Two messages that pass through one form have one fingerprint.
proof fn one_form_one_fingerprint(
    m: Seq<char>,
    r: Seq<char>,
    n: Seq<char>,
    q: Seq<char>,
    k: int,
)
    requires
        is_normalization(m, r),
        is_normalization(n, q),
        m.len() > 0,
        n.len() > 0,
        0 <= k <= 7,
        forms_of(m, r)[k] == forms_of(n, q)[k],
    ensures
        r == q,
{
    forms_follow(forms_of(m, r), forms_of(n, q), k);
}

/// The fingerprint of a message in which nothing varies is the message itself, without white space
/// at its ends.
pub proof fn settled_messages_stay(m: Seq<char>, r: Seq<char>)
    requires
        is_normalization(m, r),
        is_settled(m),
        m.len() > 0,
    ensures
        r == trim(m),
{
    let s = forms_of(m, r);
    early_forms(s);
    late_forms(s, 1);
}

/// A message of nothing has a fingerprint of nothing.
pub proof fn empty_messages_stay_empty(m: Seq<char>, r: Seq<char>)
    requires
        is_normalization(m, r),
        m.len() == 0,
    ensures
        r.len() == 0,
{
}

// ---------------------------------------------------------------------------------------------
// Source locations
// ---------------------------------------------------------------------------------------------
proof fn location_form(
    m: Seq<char>,
    r: Seq<char>,
    before: Seq<char>,
    path: Seq<char>,
    f: Seq<char>,
    place: Seq<char>,
    after: Seq<char>,
)
    requires
        is_normalization(m, r),
        holds_location(m, before, path, f, place, after),
        is_single_spaced(m),
        is_undated(m),
    ensures
        m.len() > 0,
        forms_of(m, r)[4] == before + f + ":<line>"@ + after,
{
    assert(m.len() >= path.len());
    let s = forms_of(m, r);
    early_forms(s);
    assert(holds_location(s[3], before, path, f, place, after));
}

/// The location of a line in a script counts by the name of the script alone: neither the directory
/// in which it stands nor the line and the column matter.
pub proof fn locations_count_by_file_name(
    m: Seq<char>,
    r: Seq<char>,
    n: Seq<char>,
    q: Seq<char>,
    before: Seq<char>,
    f: Seq<char>,
    after: Seq<char>,
    path: Seq<char>,
    place: Seq<char>,
    other_path: Seq<char>,
    other_place: Seq<char>,
)
    requires
        is_normalization(m, r),
        is_normalization(n, q),
        m == before + path + f + place + after,
        n == before + other_path + f + other_place + after,
        forall|k: int| 0 <= k < before.len() ==> #[trigger] before[k] != '/',
        is_way(path),
        is_way(other_path),
        is_script(f),
        is_line(place),
        is_line(other_place),
        is_beyond(after),
        is_single_spaced(m),
        is_single_spaced(n),
        is_undated(m),
        is_undated(n),
    ensures
        r == q,
{
    location_form(m, r, before, path, f, place, after);
    location_form(n, q, before, other_path, f, other_place, after);
    one_form_one_fingerprint(m, r, n, q, 4);
}

/// A location becomes the name of the script and a placeholder for the line.
pub proof fn locations_become_file_names(
    m: Seq<char>,
    r: Seq<char>,
    before: Seq<char>,
    path: Seq<char>,
    f: Seq<char>,
    place: Seq<char>,
    after: Seq<char>,
)
    requires
        is_normalization(m, r),
        m == before + path + f + place + after,
        forall|k: int| 0 <= k < before.len() ==> #[trigger] before[k] != '/',
        is_way(path),
        is_script(f),
        is_line(place),
        is_beyond(after),
        is_single_spaced(m),
        is_undated(m),
        is_settled(before + f + ":<line>"@ + after),
    ensures
        r == trim(before + f + ":<line>"@ + after),
{
    location_form(m, r, before, path, f, place, after);
    late_forms(forms_of(m, r), 4);
}

// ---------------------------------------------------------------------------------------------
// Identifiers, times, numbers and addresses
// ---------------------------------------------------------------------------------------------
proof fn uuid_form(m: Seq<char>, r: Seq<char>, a: Seq<char>, u: Seq<char>, b: Seq<char>)
    requires
        is_normalization(m, r),
        m == a + u + b,
        is_uuid(u),
        is_single_spaced(m),
        !hyphens_apart(a, 5),
        !hyphens_apart(b, 5),
    ensures
        m.len() > 0,
        forms_of(m, r)[2] == a + "<uuid>"@ + b,
{
    placeholders_are_literal();
    early_forms(forms_of(m, r));
    assert(holds(forms_of(m, r)[1], a, u, b));
}

/// Which universally unique identifier a message holds does not matter.
pub proof fn uuids_do_not_matter(
    m: Seq<char>,
    r: Seq<char>,
    n: Seq<char>,
    q: Seq<char>,
    a: Seq<char>,
    u: Seq<char>,
    v: Seq<char>,
    b: Seq<char>,
)
    requires
        is_normalization(m, r),
        is_normalization(n, q),
        m == a + u + b,
        n == a + v + b,
        is_uuid(u),
        is_uuid(v),
        is_single_spaced(m),
        is_single_spaced(n),
        !hyphens_apart(a, 5),
        !hyphens_apart(b, 5),
    ensures
        r == q,
        is_settled(a + "<uuid>"@ + b) ==> r == trim(a + "<uuid>"@ + b),
{
    uuid_form(m, r, a, u, b);
    uuid_form(n, q, a, v, b);
    one_form_one_fingerprint(m, r, n, q, 2);
    if is_settled(a + "<uuid>"@ + b) {
        late_forms(forms_of(m, r), 2);
    }
}

proof fn timestamp_form(m: Seq<char>, r: Seq<char>, a: Seq<char>, t: Seq<char>, b: Seq<char>)
    requires
        is_normalization(m, r),
        m == a + t + b,
        is_timestamp(t),
        breaks_off(b),
        is_single_spaced(m),
        !hyphens_apart(m, 5),
        !hyphens_apart(a, 3),
        !hyphens_apart(b, 3),
    ensures
        m.len() > 0,
        forms_of(m, r)[3] == a + "<timestamp>"@ + b,
{
    placeholders_are_literal();
    early_forms(forms_of(m, r));
    assert(holds(forms_of(m, r)[2], a, t, b));
}

/// Which time a message holds does not matter.
pub proof fn times_do_not_matter(
    m: Seq<char>,
    r: Seq<char>,
    n: Seq<char>,
    q: Seq<char>,
    a: Seq<char>,
    t: Seq<char>,
    u: Seq<char>,
    b: Seq<char>,
)
    requires
        is_normalization(m, r),
        is_normalization(n, q),
        m == a + t + b,
        n == a + u + b,
        is_timestamp(t),
        is_timestamp(u),
        breaks_off(b),
        is_single_spaced(m),
        is_single_spaced(n),
        !hyphens_apart(m, 5),
        !hyphens_apart(n, 5),
        !hyphens_apart(a, 3),
        !hyphens_apart(b, 3),
    ensures
        r == q,
        is_settled(a + "<timestamp>"@ + b) ==> r == trim(a + "<timestamp>"@ + b),
{
    timestamp_form(m, r, a, t, b);
    timestamp_form(n, q, a, u, b);
    one_form_one_fingerprint(m, r, n, q, 3);
    if is_settled(a + "<timestamp>"@ + b) {
        late_forms(forms_of(m, r), 3);
    }
}

proof fn id_form(m: Seq<char>, r: Seq<char>, a: Seq<char>, i: Seq<char>, b: Seq<char>)
    requires
        is_normalization(m, r),
        m == a + i + b,
        is_id(i),
        broke_off(a),
        breaks_off(b),
        is_single_spaced(m),
        is_undated(m),
        !m.contains('/'),
        !marks_id(a),
        !marks_id(b),
    ensures
        m.len() > 0,
        forms_of(m, r)[5] == a + "id=<id>"@ + b,
{
    placeholders_are_literal();
    early_forms(forms_of(m, r));
    assert(holds(forms_of(m, r)[4], a, i, b));
}

/// Which number stands behind `id=` or `id:` does not matter.
pub proof fn ids_do_not_matter(
    m: Seq<char>,
    r: Seq<char>,
    n: Seq<char>,
    q: Seq<char>,
    a: Seq<char>,
    i: Seq<char>,
    j: Seq<char>,
    b: Seq<char>,
)
    requires
        is_normalization(m, r),
        is_normalization(n, q),
        m == a + i + b,
        n == a + j + b,
        is_id(i),
        is_id(j),
        broke_off(a),
        breaks_off(b),
        is_single_spaced(m),
        is_single_spaced(n),
        is_undated(m),
        is_undated(n),
        !m.contains('/'),
        !n.contains('/'),
        !marks_id(a),
        !marks_id(b),
    ensures
        r == q,
        is_settled(a + "id=<id>"@ + b) ==> r == trim(a + "id=<id>"@ + b),
{
    id_form(m, r, a, i, b);
    id_form(n, q, a, j, b);
    one_form_one_fingerprint(m, r, n, q, 5);
    if is_settled(a + "id=<id>"@ + b) {
        late_forms(forms_of(m, r), 5);
    }
}

proof fn number_form(m: Seq<char>, r: Seq<char>, a: Seq<char>, x: Seq<char>, b: Seq<char>)
    requires
        is_normalization(m, r),
        m == a + x + b,
        is_number(x),
        x.len() >= 4,
        broke_off(a),
        breaks_off(b),
        is_single_spaced(m),
        is_undated(m),
        !m.contains('/'),
        !marks_id(m),
        !starts_number(a),
        !starts_number(b),
    ensures
        m.len() > 0,
        forms_of(m, r)[6] == a + "<id>"@ + b,
{
    placeholders_are_literal();
    early_forms(forms_of(m, r));
    assert(holds(forms_of(m, r)[5], a, x, b));
}

/// Which number of four digits or more a message holds does not matter.
pub proof fn large_numbers_do_not_matter(
    m: Seq<char>,
    r: Seq<char>,
    n: Seq<char>,
    q: Seq<char>,
    a: Seq<char>,
    x: Seq<char>,
    y: Seq<char>,
    b: Seq<char>,
)
    requires
        is_normalization(m, r),
        is_normalization(n, q),
        m == a + x + b,
        n == a + y + b,
        is_number(x),
        is_number(y),
        x.len() >= 4,
        y.len() >= 4,
        broke_off(a),
        breaks_off(b),
        is_single_spaced(m),
        is_single_spaced(n),
        is_undated(m),
        is_undated(n),
        !m.contains('/'),
        !n.contains('/'),
        !marks_id(m),
        !marks_id(n),
        !starts_number(a),
        !starts_number(b),
    ensures
        r == q,
        is_settled(a + "<id>"@ + b) ==> r == trim(a + "<id>"@ + b),
{
    number_form(m, r, a, x, b);
    number_form(n, q, a, y, b);
    one_form_one_fingerprint(m, r, n, q, 6);
    if is_settled(a + "<id>"@ + b) {
        late_forms(forms_of(m, r), 6);
    }
}

proof fn address_form(m: Seq<char>, r: Seq<char>, a: Seq<char>, x: Seq<char>, b: Seq<char>)
    requires
        is_normalization(m, r),
        m == a + x + b,
        is_address(x),
        breaks_off(b),
        is_single_spaced(m),
        is_undated(m),
        !m.contains('/'),
        !marks_id(m),
        !starts_number(m),
        !marks_address(a),
        !marks_address(b),
    ensures
        m.len() > 0,
        forms_of(m, r)[7] == a + "<address>"@ + b,
{
    placeholders_are_literal();
    early_forms(forms_of(m, r));
    assert(holds(forms_of(m, r)[6], a, x, b));
}

/// Which address a message holds does not matter.
pub proof fn addresses_do_not_matter(
    m: Seq<char>,
    r: Seq<char>,
    n: Seq<char>,
    q: Seq<char>,
    a: Seq<char>,
    x: Seq<char>,
    y: Seq<char>,
    b: Seq<char>,
)
    requires
        is_normalization(m, r),
        is_normalization(n, q),
        m == a + x + b,
        n == a + y + b,
        is_address(x),
        is_address(y),
        breaks_off(b),
        is_single_spaced(m),
        is_single_spaced(n),
        is_undated(m),
        is_undated(n),
        !m.contains('/'),
        !n.contains('/'),
        !marks_id(m),
        !marks_id(n),
        !starts_number(m),
        !starts_number(n),
        !marks_address(a),
        !marks_address(b),
    ensures
        r == q,
        is_settled(a + "<address>"@ + b) ==> r == trim(a + "<address>"@ + b),
{
    address_form(m, r, a, x, b);
    address_form(n, q, a, y, b);
    one_form_one_fingerprint(m, r, n, q, 7);
    if is_settled(a + "<address>"@ + b) {
        late_forms(forms_of(m, r), 7);
    }
}

// ---------------------------------------------------------------------------------------------
// White space
// ---------------------------------------------------------------------------------------------
/// White space and nothing else, but some.
pub open spec fn is_blank(w: Seq<char>) -> bool {
    w.len() > 0 && forall|k: int| 0 <= k < w.len() ==> is_space(#[trigger] w[k])
}

proof fn blanks_become_one(a: Seq<char>, w: Seq<char>, b: Seq<char>, by: Seq<char>)
    requires
        is_blank(w),
    ensures
        spaced(a + w + b, by) == spaced(a + seq![' '] + b, by),
    decreases b.len(), w.len(),
{
    let s = a + w + b;
    let t = a + seq![' '] + b;
    if b.len() > 0 {
        let c = b.drop_last();
        blanks_become_one(a, w, c, by);
        assert(s.drop_last() =~= a + w + c);
        assert(t.drop_last() =~= a + seq![' '] + c);
        assert(s.last() == b.last() && t.last() == b.last());
        assert(s.len() > 1 && t.len() > 1);
        if b.len() == 1 {
            assert(s[s.len() - 2] == w[w.len() - 1]);
            assert(t[t.len() - 2] == ' ');
        } else {
            assert(s[s.len() - 2] == b[b.len() - 2]);
            assert(t[t.len() - 2] == b[b.len() - 2]);
        }
    } else {
        assert(is_space(w[w.len() - 1]));
        assert(s.last() == w.last() && t.last() == ' ');
        assert(t.drop_last() =~= a);
        if w.len() == 1 {
            assert(s.drop_last() =~= a);
            if a.len() > 0 {
                assert(s[s.len() - 2] == a.last() && t[t.len() - 2] == a.last());
            }
        } else {
            let v = w.drop_last();
            assert forall|k: int| 0 <= k < v.len() implies is_space(#[trigger] v[k]) by {
                assert(v[k] == w[k]);
            }
            blanks_become_one(a, v, b, by);
            assert(s.drop_last() =~= a + v + b);
            assert(s[s.len() - 2] == w[w.len() - 2]);
        }
    }
}

/// Between words, the kind and the amount of white space do not matter.
pub proof fn white_space_does_not_matter(
    m: Seq<char>,
    r: Seq<char>,
    n: Seq<char>,
    q: Seq<char>,
    a: Seq<char>,
    v: Seq<char>,
    w: Seq<char>,
    b: Seq<char>,
)
    requires
        is_normalization(m, r),
        is_normalization(n, q),
        m == a + v + b,
        n == a + w + b,
        is_blank(v),
        is_blank(w),
    ensures
        r == q,
{
    placeholders_are_literal();
    blanks_become_one(a, v, b, " "@);
    blanks_become_one(a, w, b, " "@);
    let s = forms_of(m, r);
    let t = forms_of(n, q);
    assert(s[1] == spaced(m, " "@));
    assert(t[1] == spaced(n, " "@));
    one_form_one_fingerprint(m, r, n, q, 1);
}

proof fn start_is_trimmed(s: Seq<char>, set: spec_fn(char) -> bool)
    ensures
        trim_start_by(s, set).len() > 0 ==> !set(trim_start_by(s, set)[0]),
    decreases s.len(),
{
    if s.len() > 0 && set(s[0]) {
        start_is_trimmed(s.drop_first(), set);
    }
}

proof fn end_is_trimmed(s: Seq<char>, set: spec_fn(char) -> bool)
    ensures
        trim_end_by(s, set).len() > 0 ==> !set(trim_end_by(s, set).last()) && trim_end_by(s, set)[0]
            == s[0],
    decreases s.len(),
{
    if s.len() > 0 && set(s.last()) {
        end_is_trimmed(s.drop_last(), set);
    }
}

/// A fingerprint neither starts nor ends with white space.
pub proof fn fingerprints_are_trimmed(m: Seq<char>, r: Seq<char>)
    requires
        is_normalization(m, r),
        r.len() > 0,
    ensures
        !is_space(r[0]),
        !is_space(r.last()),
{
    let s = forms_of(m, r)[8];
    let set = |c: char| is_space(c);
    start_is_trimmed(s, set);
    end_is_trimmed(trim_start_by(s, set), set);
    assert(r == trim_by(s, set));
}

} // verus!
