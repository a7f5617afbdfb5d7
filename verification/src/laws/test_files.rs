//! Which files are test files, by their names.
use vstd::prelude::*;

use crate::affected::{has_test_suffix, is_test, test_suffixes};
use crate::laws::modules::one_component;
use crate::laws::test_names::components_of_joined;
use crate::paths::{components, dot, dot_dot, file_name};
use crate::text::{contains, ends_with, lower, lower_char, occurs_at, starts_with};

verus! {

/// The endings of test files.
pub open spec fn is_test_ending(e: Seq<char>) -> bool {
    ||| e == ".test.ts"@ || e == ".test.tsx"@ || e == ".test.js"@ || e == ".test.jsx"@
    ||| e == ".test.mjs"@ || e == ".spec.ts"@ || e == ".spec.tsx"@ || e == ".spec.js"@
    ||| e == ".spec.jsx"@ || e == ".spec.mjs"@ || e == "_test.go"@ || e == "_test.rs"@
    ||| e == "_test.py"@
}

/// `s` holds no capital letters.
pub open spec fn is_lower(s: Seq<char>) -> bool {
    forall|k: int| 0 <= k < s.len() ==> lower_char(#[trigger] s[k]) == s[k]
}

/// Each ending is one of those that are looked for.
pub proof fn endings_are_listed(e: Seq<char>) -> (k: int)
    requires
        is_test_ending(e),
    ensures
        0 <= k < test_suffixes().len(),
        test_suffixes()[k] == e,
{
    if e == ".test.ts"@ {
        0
    } else if e == ".test.tsx"@ {
        1
    } else if e == ".test.js"@ {
        2
    } else if e == ".test.jsx"@ {
        3
    } else if e == ".test.mjs"@ {
        4
    } else if e == ".spec.ts"@ {
        5
    } else if e == ".spec.tsx"@ {
        6
    } else if e == ".spec.js"@ {
        7
    } else if e == ".spec.jsx"@ {
        8
    } else if e == ".spec.mjs"@ {
        9
    } else if e == "_test.go"@ {
        10
    } else if e == "_test.rs"@ {
        11
    } else {
        12
    }
}

proof fn listed_are_endings(k: int)
    requires
        0 <= k < test_suffixes().len(),
    ensures
        is_test_ending(test_suffixes()[k]),
{
}

proof fn endings_are_lower(e: Seq<char>)
    requires
        is_test_ending(e),
    ensures
        is_lower(e),
{
    reveal_strlit(".test.ts");
    reveal_strlit(".test.tsx");
    reveal_strlit(".test.js");
    reveal_strlit(".test.jsx");
    reveal_strlit(".test.mjs");
    reveal_strlit(".spec.ts");
    reveal_strlit(".spec.tsx");
    reveal_strlit(".spec.js");
    reveal_strlit(".spec.jsx");
    reveal_strlit(".spec.mjs");
    reveal_strlit("_test.go");
    reveal_strlit("_test.rs");
    reveal_strlit("_test.py");
}

proof fn suffixes_count(s: Seq<char>, k: int, n: int)
    requires
        0 <= k < n,
        ends_with(s, test_suffixes()[k]),
    ensures
        has_test_suffix(s, n),
    decreases n,
{
    if k < n - 1 {
        suffixes_count(s, k, n - 1);
    }
}

proof fn counted_suffixes(s: Seq<char>, n: int)
    requires
        has_test_suffix(s, n),
        n <= test_suffixes().len(),
    ensures
        exists|k: int| 0 <= k < n && #[trigger] ends_with(s, test_suffixes()[k]),
    decreases n,
{
    if !ends_with(s, test_suffixes()[n - 1]) {
        counted_suffixes(s, n - 1);
    }
}

/// A file whose name ends like one of a test is a test file.
pub proof fn endings_make_test_files(s: Seq<char>, e: Seq<char>)
    requires
        is_test_ending(e),
    ensures
        is_test(s + e),
{
    let k = endings_are_listed(e);
    endings_are_lower(e);
    let low = lower(s + e);
    assert(low.subrange(s.len() as int, low.len() as int) =~= e) by {
        assert forall|i: int| 0 <= i < e.len() implies low[s.len() + i] == e[i] by {
            assert(lower_char(e[i]) == e[i]);
        }
    }
    assert(ends_with(low, e));
    suffixes_count(low, k, test_suffixes().len() as int);
}

/// A file whose name starts with `test_` is a test file, in whatever directory.
pub proof fn the_prefix_makes_test_files(d: Seq<char>, x: Seq<char>)
    requires
        forall|k: int| 0 <= k < x.len() ==> #[trigger] x[k] != '/',
    ensures
        is_test("test_"@ + x),
        is_test(d + seq!['/'] + "test_"@ + x),
{
    reveal_strlit("test_");
    let name = "test_"@ + x;
    let low = lower(name);
    assert(lower_char('t') == 't' && lower_char('e') == 'e' && lower_char('s') == 's');
    assert(low.subrange(0, 5) =~= "test_"@);
    assert(low[0] == 't');
    assert(dot()[0] == '.' && dot_dot()[0] == '.');
    assert forall|k: int| 0 <= k < low.len() implies #[trigger] low[k] != '/' by {
        if k >= 5 {
            assert(low[k] == lower_char(x[k - 5]));
            assert(x[k - 5] != '/');
            lower_keeps_slashes(x[k - 5]);
        }
    }
    one_component(low);
    assert(seq![low].last() == low);
    let whole = lower(d + seq!['/'] + "test_"@ + x);
    assert(lower_char('/') == '/');
    assert(whole =~= lower(d) + seq!['/'] + low);
    components_of_joined(lower(d), low);
    assert((components(lower(d)) + seq![low]).last() == low);
}

proof fn lower_keeps_slashes(c: char)
    ensures
        lower_char(c) == '/' <==> c == '/',
{
    if 'A' <= c && c <= 'Z' {
        let v = (c as u8 + 32) as u8;
        assert(97 <= v <= 122);
    }
}

/// A Rust file below a `tests` directory is a test file.
pub proof fn tests_directories_hold_test_files(a: Seq<char>, x: Seq<char>)
    ensures
        is_test("tests/"@ + x + ".rs"@),
        is_test(a + "/tests/"@ + x + ".rs"@),
{
    reveal_strlit("tests/");
    reveal_strlit("/tests/");
    reveal_strlit(".rs");
    assert(lower_char('t') == 't' && lower_char('e') == 'e' && lower_char('s') == 's' && lower_char(
        'r',
    ) == 'r' && lower_char('/') == '/' && lower_char('.') == '.');
    let p = lower("tests/"@ + x + ".rs"@);
    assert(p.subrange(0, 6) =~= "tests/"@);
    assert(p.subrange(p.len() - 3, p.len() as int) =~= ".rs"@);
    let q = lower(a + "/tests/"@ + x + ".rs"@);
    let i = a.len() as int;
    assert(q.subrange(i, i + 7) =~= "/tests/"@);
    assert(occurs_at(q, "/tests/"@, i));
    assert(q.subrange(q.len() - 3, q.len() as int) =~= ".rs"@);
}

/// No other file is a test file. The path is in lower case here; case does not matter.
pub proof fn other_files_are_no_test_files(p: Seq<char>)
    requires
        is_lower(p),
        forall|s: Seq<char>, e: Seq<char>| is_test_ending(e) ==> p != #[trigger] (s + e),
        file_name(components(p)) is Some ==> !starts_with(file_name(components(p))->0, "test_"@),
        !ends_with(p, ".rs"@) || (!contains(p, "/tests/"@) && !starts_with(p, "tests/"@)),
    ensures
        !is_test(p),
{
    assert(lower(p) =~= p);
    let n = test_suffixes().len() as int;
    if has_test_suffix(p, n) {
        counted_suffixes(p, n);
        let k = choose|k: int| 0 <= k < n && #[trigger] ends_with(p, test_suffixes()[k]);
        listed_are_endings(k);
        let e = test_suffixes()[k];
        let s = p.take(p.len() - e.len());
        assert(p =~= s + e);
    }
}

} // verus!
