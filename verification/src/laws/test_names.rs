//! What the name of a test file depends on.
use vstd::prelude::*;

use crate::affected::{has_test_suffix, is_test, test_suffixes};
use crate::paths::{components, file_name, named_pieces};
use crate::text::{contains, ends_with, lower, lower_char, occurs_at, split_on, starts_with};

verus! {

/// Whether a path looks like that of a test file does not depend on the case of its ASCII letters.
pub proof fn test_files_ignore_case(p: Seq<char>, q: Seq<char>)
    requires
        lower(p) == lower(q),
    ensures
        is_test(p) == is_test(q),
{
}

/// A path and the same path in lower case are both that of a test file, or neither is.
pub proof fn lower_case_keeps_test_files(p: Seq<char>)
    ensures
        is_test(lower(p)) == is_test(p),
{
    assert forall|c: char| #[trigger] lower_char(lower_char(c)) == lower_char(c) by {
        if 'A' <= c && c <= 'Z' {
            let u = c as u8;
            let v = (u + 32) as u8;
            assert(97 <= v <= 122);
            assert(v as char as u8 == v);
        }
    }
    assert(lower(lower(p)) =~= lower(p));
}

/// A test file stays one below any directory.
pub proof fn directories_keep_test_files(d: Seq<char>, p: Seq<char>)
    requires
        is_test(p),
    ensures
        is_test(d + seq!['/'] + p),
{
    let x = lower(d);
    let y = lower(p);
    let whole = lower(d + seq!['/'] + p);
    assert(lower_char('/') == '/');
    assert(whole =~= x + seq!['/'] + y);
    let n = test_suffixes().len() as int;
    if has_test_suffix(y, n) {
        suffixes_stay_below(x, y, n);
    } else if file_name(components(y)) is Some && starts_with(
        file_name(components(y))->0,
        "test_"@,
    ) {
        components_of_joined(x, y);
        assert(components(whole).last() == components(y).last());
    } else {
        assert(ends_with(y, ".rs"@));
        ending_stays(x, y, ".rs"@);
        reveal_strlit("/tests/");
        reveal_strlit("tests/");
        if contains(y, "/tests/"@) {
            let i = choose|i: int| occurs_at(y, "/tests/"@, i);
            let j = x.len() + 1 + i;
            assert(whole.subrange(j, j + 7) =~= y.subrange(i, i + 7));
            assert(occurs_at(whole, "/tests/"@, j));
        } else {
            let j = x.len() as int;
            let tail = y.subrange(0, 6);
            assert(tail == "tests/"@);
            assert forall|k: int| 0 <= k < 7 implies whole.subrange(j, j + 7)[k] == "/tests/"@[k] by {
                if k > 0 {
                    assert(whole[j + k] == tail[k - 1]);
                }
            }
            assert(whole.subrange(j, j + 7) =~= "/tests/"@);
            assert(occurs_at(whole, "/tests/"@, j));
        }
    }
}

proof fn ending_stays(x: Seq<char>, y: Seq<char>, ending: Seq<char>)
    requires
        ends_with(y, ending),
    ensures
        ends_with(x + seq!['/'] + y, ending),
{
    let whole = x + seq!['/'] + y;
    let n = ending.len();
    assert(whole.subrange(whole.len() - n, whole.len() as int) =~= y.subrange(
        y.len() - n,
        y.len() as int,
    ));
}

proof fn suffixes_stay_below(x: Seq<char>, y: Seq<char>, n: int)
    requires
        has_test_suffix(y, n),
    ensures
        has_test_suffix(x + seq!['/'] + y, n),
    decreases n,
{
    if has_test_suffix(y, n - 1) {
        suffixes_stay_below(x, y, n - 1);
    } else {
        ending_stays(x, y, test_suffixes()[n - 1]);
    }
}

/// The pieces of two paths that a slash joins are those of the one and those of the other.
pub proof fn split_of_joined(x: Seq<char>, y: Seq<char>)
    ensures
        split_on(x + seq!['/'] + y, '/') == split_on(x, '/') + split_on(y, '/'),
        split_on(y, '/').len() > 0,
    decreases y.len(),
{
    let whole = x + seq!['/'] + y;
    if y.len() == 0 {
        assert(whole =~= x.push('/'));
        assert(whole.drop_last() =~= x);
        assert(split_on(whole, '/') =~= split_on(x, '/') + split_on(y, '/'));
    } else {
        let rest = y.drop_last();
        split_of_joined(x, rest);
        assert(whole.drop_last() =~= x + seq!['/'] + rest);
        assert(whole.last() == y.last());
        assert(split_on(whole, '/') =~= split_on(x, '/') + split_on(y, '/'));
    }
}

proof fn named_of_joined(a: Seq<Seq<char>>, b: Seq<Seq<char>>)
    ensures
        named_pieces(a + b) == named_pieces(a) + named_pieces(b),
    decreases b.len(),
{
    if b.len() == 0 {
        assert(a + b =~= a);
    } else {
        named_of_joined(a, b.drop_last());
        assert((a + b).drop_last() =~= a + b.drop_last());
        assert((a + b).last() == b.last());
    }
    assert(named_pieces(a + b) =~= named_pieces(a) + named_pieces(b));
}

/// The components of a path below a directory are those of the directory and those of the path.
pub proof fn components_of_joined(x: Seq<char>, y: Seq<char>)
    ensures
        components(x + seq!['/'] + y) == components(x) + components(y),
{
    split_of_joined(x, y);
    named_of_joined(split_on(x, '/'), split_on(y, '/'));
}

} // verus!
