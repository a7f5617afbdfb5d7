//! Failure clustering: failed tests with similar error messages belong together.
use vstd::prelude::*;
use vstd::string::*;
use vstd::utf8::encode_utf8;

use crate::pattern::{is_rewriting, replace_all, replaced};
use crate::ranking::{arranged, insert_text, is_ranking, rank_desc, sorted_set_of};
use crate::text::{chars_of, concat3, listed, same, slice_of, text_of, trim, trim_chars};

verus! {

// ---------------------------------------------------------------------------------------------
// Edit distance
// ---------------------------------------------------------------------------------------------
/// The least number of single-byte insertions, deletions and substitutions that turn `a` into `b`.
pub open spec fn edit_distance(a: Seq<u8>, b: Seq<u8>) -> nat
    decreases a.len() + b.len(),
{
    if a.len() == 0 {
        b.len()
    } else if b.len() == 0 {
        a.len()
    } else {
        let drop_a = edit_distance(a.drop_last(), b) + 1;
        let drop_b = edit_distance(a, b.drop_last()) + 1;
        let change = edit_distance(a.drop_last(), b.drop_last()) + if a.last() != b.last() {
            1nat
        } else {
            0nat
        };
        min3(drop_a, drop_b, change)
    }
}

pub open spec fn min3(x: nat, y: nat, z: nat) -> nat {
    if x <= y && x <= z {
        x
    } else if y <= z {
        y
    } else {
        z
    }
}

/// Edit distance is symmetric.
pub proof fn edit_distance_symmetric(a: Seq<u8>, b: Seq<u8>)
    ensures
        edit_distance(a, b) == edit_distance(b, a),
    decreases a.len() + b.len(),
{
    if a.len() > 0 && b.len() > 0 {
        edit_distance_symmetric(a.drop_last(), b);
        edit_distance_symmetric(a, b.drop_last());
        edit_distance_symmetric(a.drop_last(), b.drop_last());
    }
}

/// Edit distance is zero exactly between equal texts.
pub proof fn edit_distance_zero_iff_equal(a: Seq<u8>, b: Seq<u8>)
    ensures
        edit_distance(a, b) == 0 <==> a == b,
    decreases a.len() + b.len(),
{
    if a.len() > 0 && b.len() > 0 {
        edit_distance_zero_iff_equal(a.drop_last(), b.drop_last());
        if a.drop_last() == b.drop_last() && a.last() == b.last() {
            assert(a =~= a.drop_last().push(a.last()));
            assert(b =~= b.drop_last().push(b.last()));
        }
    } else {
        if a.len() == b.len() {
            assert(a =~= b);
        }
    }
}

/// Edit distance never exceeds the longer length, and never undercuts the difference in length.
pub proof fn edit_distance_bounds(a: Seq<u8>, b: Seq<u8>)
    ensures
        edit_distance(a, b) <= a.len() || edit_distance(a, b) <= b.len(),
        a.len() <= b.len() + edit_distance(a, b),
        b.len() <= a.len() + edit_distance(a, b),
    decreases a.len() + b.len(),
{
    if a.len() > 0 && b.len() > 0 {
        edit_distance_bounds(a.drop_last(), b);
        edit_distance_bounds(a, b.drop_last());
        edit_distance_bounds(a.drop_last(), b.drop_last());
    }
}

/// Appending one byte to either side changes the distance by at most one.
proof fn edit_distance_step(a: Seq<u8>, b: Seq<u8>)
    ensures
        a.len() > 0 ==> edit_distance(a, b) <= edit_distance(a.drop_last(), b) + 1,
        b.len() > 0 ==> edit_distance(a, b) <= edit_distance(a, b.drop_last()) + 1,
{
    if a.len() > 0 && b.len() == 0 {
        assert(edit_distance(a.drop_last(), b) == a.len() - 1);
    }
    if b.len() > 0 && a.len() == 0 {
        assert(edit_distance(a, b.drop_last()) == b.len() - 1);
    }
}

/// Edit distance obeys the triangle inequality.
pub proof fn edit_distance_triangle(a: Seq<u8>, b: Seq<u8>, c: Seq<u8>)
    ensures
        edit_distance(a, c) <= edit_distance(a, b) + edit_distance(b, c),
    decreases a.len() + b.len() + c.len(),
{
    if a.len() == 0 {
        edit_distance_bounds(b, c);
    } else if c.len() == 0 {
        edit_distance_bounds(a, b);
    } else if b.len() == 0 {
        edit_distance_bounds(a, c);
    } else {
        let ab = edit_distance(a, b);
        let bc = edit_distance(b, c);
        edit_distance_step(a, c);
        if ab == edit_distance(a.drop_last(), b) + 1 {
            edit_distance_triangle(a.drop_last(), b, c);
        } else if bc == edit_distance(b, c.drop_last()) + 1 {
            edit_distance_triangle(a, b, c.drop_last());
        } else if ab == edit_distance(a, b.drop_last()) + 1 {
            edit_distance_triangle(a, b.drop_last(), c);
            edit_distance_step(b, c);
            if bc == edit_distance(b.drop_last(), c) + 1 {
            } else {
                edit_distance_triangle(a, b.drop_last(), c.drop_last());
            }
        } else if bc == edit_distance(b.drop_last(), c) + 1 {
            edit_distance_triangle(a.drop_last(), b.drop_last(), c);
        } else {
            edit_distance_triangle(a.drop_last(), b.drop_last(), c.drop_last());
        }
    }
}

fn least(x: u128, y: u128, z: u128) -> (r: u128)
    ensures
        r == min3(x as nat, y as nat, z as nat),
{
    if x <= y && x <= z {
        x
    } else if y <= z {
        y
    } else {
        z
    }
}

/// The distance between two byte strings. `row` holds, for each nonempty prefix of `a`, its
/// distance to the part of `b` read so far.
fn distance_rows(a: &[u8], b: &[u8]) -> (d: usize)
    ensures
        d == edit_distance(a@, b@),
{
    let n: usize = a.len();
    let m: usize = b.len();
    let mut row: Vec<u128> = Vec::new();
    let mut i: usize = 0;
    while i < n
        invariant
            0 <= i <= n,
            n == a@.len(),
            row@.len() == i,
            forall|k: int|
                0 <= k < i ==> #[trigger] row@[k] == edit_distance(a@.take(k + 1), b@.take(0)),
        decreases n - i,
    {
        assert(edit_distance(a@.take(i + 1), b@.take(0)) == i + 1);
        row.push(i as u128 + 1);
        i += 1;
    }
    let mut j: usize = 0;
    while j < m
        invariant
            0 <= j <= m,
            n == a@.len(),
            m == b@.len(),
            row@.len() == n,
            forall|k: int|
                0 <= k < n ==> #[trigger] row@[k] == edit_distance(
                    a@.take(k + 1),
                    b@.take(j as int),
                ),
        decreases m - j,
    {
        let ghost bp = b@.take(j as int);
        let ghost bj = b@.take(j + 1);
        assert(bj.drop_last() =~= bp);
        let mut diag: u128 = j as u128;
        let mut left: u128 = j as u128 + 1;
        let mut i: usize = 0;
        while i < n
            invariant
                0 <= i <= n,
                0 <= j < m,
                n == a@.len(),
                m == b@.len(),
                row@.len() == n,
                bp == b@.take(j as int),
                bj == b@.take(j + 1),
                bj.drop_last() == bp,
                diag == edit_distance(a@.take(i as int), bp),
                left == edit_distance(a@.take(i as int), bj),
                forall|k: int| 0 <= k < i ==> #[trigger] row@[k] == edit_distance(a@.take(k + 1), bj),
                forall|k: int| i <= k < n ==> #[trigger] row@[k] == edit_distance(a@.take(k + 1), bp),
            decreases n - i,
        {
            let cost: u128 = if a[i] != b[j] {
                1
            } else {
                0
            };
            proof {
                let ai = a@.take(i + 1);
                assert(ai.drop_last() =~= a@.take(i as int));
                assert(ai.last() == a@[i as int]);
                assert(bj.last() == b@[j as int]);
                edit_distance_bounds(ai, bp);
                edit_distance_bounds(a@.take(i as int), bj);
                edit_distance_bounds(a@.take(i as int), bp);
            }
            let up: u128 = row[i];
            let d: u128 = least(up + 1, left + 1, diag + cost);
            row.set(i, d);
            diag = up;
            left = d;
            i += 1;
        }
        j += 1;
    }
    proof {
        edit_distance_bounds(a@, b@);
        assert(a@.take(n as int) =~= a@);
        assert(b@.take(m as int) =~= b@);
    }
    if n == 0 {
        m
    } else {
        row[n - 1] as usize
    }
}

/// The edit distance between two texts, counted in bytes.
pub fn levenshtein_distance(a: &str, b: &str) -> (d: usize)
    ensures
        d == edit_distance(a.spec_bytes(), b.spec_bytes()),
{
    let x = a.as_bytes();
    let y = b.as_bytes();
    if x.len() > y.len() {
        proof {
            edit_distance_symmetric(x@, y@);
        }
        distance_rows(y, x)
    } else {
        distance_rows(x, y)
    }
}

// ---------------------------------------------------------------------------------------------
// Similarity
// ---------------------------------------------------------------------------------------------
/// A share of a whole: `part` of `whole`, with `whole` at least one.
pub struct Share {
    pub part: usize,
    pub whole: usize,
}

/// The longer of two byte lengths.
pub open spec fn longer(a: Seq<char>, b: Seq<char>) -> nat {
    if encode_utf8(a).len() >= encode_utf8(b).len() {
        encode_utf8(a).len()
    } else {
        encode_utf8(b).len()
    }
}

/// How much of the longer text survives the edits between `a` and `b`.
pub fn string_similarity(a: &str, b: &str) -> (r: Share)
    ensures
        r.part <= r.whole,
        r.whole >= 1,
        a@ == b@ ==> r.part == r.whole,
        a@ != b@ && (a@.len() == 0 || b@.len() == 0) ==> r.part == 0,
        a@ != b@ && a@.len() > 0 && b@.len() > 0 ==> {
            &&& r.whole == longer(a@, b@)
            &&& r.part == longer(a@, b@) - edit_distance(a.spec_bytes(), b.spec_bytes())
        },
{
    if same(a, b) {
        return Share { part: 1, whole: 1 };
    }
    if a.is_empty() || b.is_empty() {
        return Share { part: 0, whole: 1 };
    }
    let la: usize = a.as_bytes().len();
    let lb: usize = b.as_bytes().len();
    let whole: usize = if la >= lb {
        la
    } else {
        lb
    };
    let d: usize = levenshtein_distance(a, b);
    proof {
        edit_distance_bounds(a.spec_bytes(), b.spec_bytes());
        if whole == 0 {
            vstd::utf8::encode_utf8_decode_utf8(a@);
            vstd::utf8::encode_utf8_decode_utf8(b@);
            assert(a.spec_bytes() =~= b.spec_bytes());
        }
    }
    Share { part: whole - d, whole }
}

/// Two texts count as similar when at least seven tenths of the longer one survive.
pub open spec fn similar(a: Seq<char>, b: Seq<char>) -> bool {
    a == b || (a.len() > 0 && b.len() > 0 && 10 * edit_distance(encode_utf8(a), encode_utf8(b))
        <= 3 * longer(a, b))
}

/// Whether two texts are similar enough to share a cluster.
pub fn are_similar(a: &str, b: &str) -> (r: bool)
    ensures
        r == similar(a@, b@),
{
    let s = string_similarity(a, b);
    proof {
        edit_distance_bounds(a.spec_bytes(), b.spec_bytes());
    }
    10 * (s.part as u128) >= 7 * (s.whole as u128)
}

// ---------------------------------------------------------------------------------------------
// Normalization
// ---------------------------------------------------------------------------------------------
/// The longest prefix of `s` whose UTF-8 form has at most `max` bytes.
pub open spec fn clip(s: Seq<char>, max: nat) -> Seq<char>
    decreases s.len(),
{
    if s.len() == 0 || encode_utf8(s).len() <= max {
        s
    } else {
        clip(s.drop_last(), max)
    }
}

proof fn encode_push(s: Seq<char>, c: char)
    ensures
        encode_utf8(s.push(c)) == encode_utf8(s) + encode_utf8(seq![c]),
    decreases s.len(),
{
    if s.len() == 0 {
        assert(s.push(c) =~= seq![c]);
        assert(encode_utf8(s) =~= Seq::<u8>::empty());
        assert(encode_utf8(s) + encode_utf8(seq![c]) =~= encode_utf8(seq![c]));
    } else {
        encode_push(s.drop_first(), c);
        assert(s.push(c).drop_first() =~= s.drop_first().push(c));
        assert(encode_utf8(s.push(c)) =~= encode_utf8(s) + encode_utf8(seq![c]));
    }
}

proof fn clip_from_above(s: Seq<char>, n: int, max: nat)
    requires
        0 <= n < s.len(),
        encode_utf8(s.take(n)).len() <= max < encode_utf8(s.take(n + 1)).len(),
    ensures
        clip(s, max) == s.take(n),
        encode_utf8(s).len() > max,
    decreases s.len(),
{
    let d = s.drop_last();
    assert(s =~= d.push(s.last()));
    encode_push(d, s.last());
    if n + 1 == s.len() {
        assert(s.take(n + 1) =~= s);
        assert(d =~= s.take(n));
        assert(clip(d, max) == d);
    } else {
        assert(d.take(n) =~= s.take(n));
        assert(d.take(n + 1) =~= s.take(n + 1));
        clip_from_above(d, n, max);
    }
}

/// The longest prefix of `s` that ends between characters and has at most `max_bytes` bytes.
pub fn truncate_at_char_boundary(s: &str, max_bytes: usize) -> (r: String)
    ensures
        r@ == clip(s@, max_bytes as nat),
{
    let v = chars_of(s);
    let mut n: usize = 0;
    let mut size: usize = 0;
    assert(s@.take(0) =~= Seq::<char>::empty());
    while n < v.len()
        invariant
            0 <= n <= v@.len(),
            v@ == s@,
            size <= max_bytes,
            size == encode_utf8(s@.take(n as int)).len(),
        decreases v@.len() - n,
    {
        let mut one = String::new();
        one.push(v[n]);
        let width: usize = one.as_str().as_bytes().len();
        proof {
            assert(one@ =~= seq![s@[n as int]]);
            encode_push(s@.take(n as int), s@[n as int]);
            assert(s@.take(n + 1) =~= s@.take(n as int).push(s@[n as int]));
        }
        if width > max_bytes - size {
            proof {
                clip_from_above(s@, n as int, max_bytes as nat);
                assert(s@.take(n as int) =~= s@.subrange(0, n as int));
            }
            return text_of(&slice_of(&v, 0, n));
        }
        size = size + width;
        n += 1;
    }
    assert(s@.take(n as int) =~= s@);
    s.to_owned()
}

/// Longest fingerprint that takes part in comparisons, in bytes.
pub const MAX_ERROR_LENGTH: usize = 500;

/// `s` with each match of `pattern` replaced; `s` itself where `pattern` is no expression.
pub open spec fn rewritten(s: Seq<char>, pattern: Seq<char>, replacement: Seq<char>) -> Seq<char> {
    match replaced(pattern, s, replacement) {
        Some(t) => t,
        None => s,
    }
}

/// An error message with its variable parts (identifiers, times, line numbers, addresses) replaced
/// by placeholders, and with single spaces.
pub open spec fn normalized(message: Seq<char>) -> Seq<char> {
    let s = rewritten(message, r"\s+"@, " "@);
    let s = rewritten(
        s,
        r"(?i)[a-f0-9]{8}-[a-f0-9]{4}-[a-f0-9]{4}-[a-f0-9]{4}-[a-f0-9]{12}"@,
        "<uuid>"@,
    );
    let s = rewritten(s, r"\d{4}-\d{2}-\d{2}[T ]\d{2}:\d{2}:\d{2}(\.\d+)?Z?"@, "<timestamp>"@);
    let s = rewritten(s, r"/.+/([^/]+\.[jt]sx?):\d+(:\d+)?"@, "$1:<line>"@);
    let s = rewritten(s, r"(?i)\bid[=:]\s*\d+"@, "id=<id>"@);
    let s = rewritten(s, r"\b\d{4,}\b"@, "<id>"@);
    let s = rewritten(s, r"(?i)0x[a-f0-9]+"@, "<address>"@);
    let s = rewritten(s, r"\s+"@, " "@);
    if message.len() == 0 {
        Seq::empty()
    } else {
        trim(s)
    }
}

/// `t` is `s` with each match of `pattern` replaced, as the syntax of the expression says.
pub open spec fn is_rewritten(
    s: Seq<char>,
    pattern: Seq<char>,
    replacement: Seq<char>,
    t: Seq<char>,
) -> bool {
    t == rewritten(s, pattern, replacement) && is_rewriting(pattern, s, replacement, Some(t))
}

/// `s` are the forms that a message passes through, from the message itself to its last form.
pub open spec fn are_forms(s: Seq<Seq<char>>) -> bool {
    &&& s.len() == 9
    &&& is_rewritten(s[0], r"\s+"@, " "@, s[1])
    &&& is_rewritten(
        s[1],
        r"(?i)[a-f0-9]{8}-[a-f0-9]{4}-[a-f0-9]{4}-[a-f0-9]{4}-[a-f0-9]{12}"@,
        "<uuid>"@,
        s[2],
    )
    &&& is_rewritten(
        s[2],
        r"\d{4}-\d{2}-\d{2}[T ]\d{2}:\d{2}:\d{2}(\.\d+)?Z?"@,
        "<timestamp>"@,
        s[3],
    )
    &&& is_rewritten(s[3], r"/.+/([^/]+\.[jt]sx?):\d+(:\d+)?"@, "$1:<line>"@, s[4])
    &&& is_rewritten(s[4], r"(?i)\bid[=:]\s*\d+"@, "id=<id>"@, s[5])
    &&& is_rewritten(s[5], r"\b\d{4,}\b"@, "<id>"@, s[6])
    &&& is_rewritten(s[6], r"(?i)0x[a-f0-9]+"@, "<address>"@, s[7])
    &&& is_rewritten(s[7], r"\s+"@, " "@, s[8])
}

/// `r` is the fingerprint of `message`: its last form without white space at the ends.
pub open spec fn is_normalization(message: Seq<char>, r: Seq<char>) -> bool {
    if message.len() == 0 {
        r.len() == 0
    } else {
        exists|s: Seq<Seq<char>>| #[trigger] are_forms(s) && s[0] == message && r == trim(s[8])
    }
}

fn rewrite(s: String, pattern: &str, replacement: &str) -> (r: String)
    ensures
        is_rewritten(s@, pattern@, replacement@, r@),
{
    match replace_all(pattern, s.as_str(), replacement) {
        Some(t) => t,
        None => s,
    }
}

/// Replaces the variable parts of an error message by placeholders, so that two occurrences of one
/// failure read alike.
pub fn normalize_error_message(message: &str) -> (r: String)
    ensures
        r@ == normalized(message@),
        is_normalization(message@, r@),
{
    if message.is_empty() {
        let r = String::new();
        assert(r@ =~= Seq::<char>::empty());
        return r;
    }
    let s = rewrite(message.to_owned(), r"\s+", " ");
    let ghost s1 = s@;
    let s = rewrite(
        s,
        r"(?i)[a-f0-9]{8}-[a-f0-9]{4}-[a-f0-9]{4}-[a-f0-9]{4}-[a-f0-9]{12}",
        "<uuid>",
    );
    let ghost s2 = s@;
    let s = rewrite(s, r"\d{4}-\d{2}-\d{2}[T ]\d{2}:\d{2}:\d{2}(\.\d+)?Z?", "<timestamp>");
    let ghost s3 = s@;
    let s = rewrite(s, r"/.+/([^/]+\.[jt]sx?):\d+(:\d+)?", "$1:<line>");
    let ghost s4 = s@;
    let s = rewrite(s, r"(?i)\bid[=:]\s*\d+", "id=<id>");
    let ghost s5 = s@;
    let s = rewrite(s, r"\b\d{4,}\b", "<id>");
    let ghost s6 = s@;
    let s = rewrite(s, r"(?i)0x[a-f0-9]+", "<address>");
    let ghost s7 = s@;
    let s = rewrite(s, r"\s+", " ");
    assert(are_forms(seq![message@, s1, s2, s3, s4, s5, s6, s7, s@]));
    text_of(&trim_chars(&chars_of(s.as_str())))
}

// ---------------------------------------------------------------------------------------------
// Clustering
// ---------------------------------------------------------------------------------------------
/// A failed test of the current run.
pub struct FailedTest {
    pub name: String,
    pub file_path: String,
    pub error: String,
}

/// Failures that share a cause, as far as their messages tell.
pub struct FailureCluster {
    /// The fingerprint of the failure that opened the cluster.
    pub pattern: String,
    pub count: u32,
    pub test_names: Vec<String>,
    pub file_paths: Vec<String>,
    /// The similarity that membership asks for, in hundredths.
    pub similarity: u32,
}

/// Similarity that two messages need to share a cluster, in hundredths.
pub const SIMILARITY_THRESHOLD: u32 = 70;

/// What a failure is compared by.
pub enum Fingerprint {
    /// The normalized error message.
    Message(String),
    /// No message was captured: the file that the test stands in.
    Silent(String),
}

/// Whether a failure with fingerprint `b` belongs to a cluster opened by `a`.
pub open spec fn joins(a: Fingerprint, b: Fingerprint) -> bool {
    match (a, b) {
        (Fingerprint::Message(x), Fingerprint::Message(y)) => similar(x@, y@),
        (Fingerprint::Silent(x), Fingerprint::Silent(y)) => x@ == y@,
        _ => false,
    }
}

/// The first founder among the failures before `k` whose cluster failure `i` joins.
pub open spec fn founder_before(p: Seq<Fingerprint>, i: int, k: int) -> Option<int>
    decreases i, k,
{
    if k <= 0 || k > i || i >= p.len() {
        None
    } else {
        match founder_before(p, i, k - 1) {
            Some(l) => Some(l),
            None => if is_founder(p, k - 1) && joins(p[k - 1], p[i]) {
                Some(k - 1)
            } else {
                None
            },
        }
    }
}

/// Failure `i` opens a cluster: it joins none that was opened before it.
pub open spec fn is_founder(p: Seq<Fingerprint>, i: int) -> bool
    decreases i, i + 1,
{
    0 <= i < p.len() && founder_before(p, i, i) is None
}

/// The founder of the cluster that failure `i` belongs to.
pub open spec fn home(p: Seq<Fingerprint>, i: int) -> int {
    match founder_before(p, i, i) {
        Some(l) => l,
        None => i,
    }
}

/// The founders among the first `n` failures, in order.
pub open spec fn founders(p: Seq<Fingerprint>, n: int) -> Seq<int>
    decreases n,
{
    if n <= 0 {
        Seq::empty()
    } else if is_founder(p, n - 1) {
        founders(p, n - 1).push(n - 1)
    } else {
        founders(p, n - 1)
    }
}

/// The members of the cluster of founder `l` among the first `n` failures, in order.
pub open spec fn members(p: Seq<Fingerprint>, l: int, n: int) -> Seq<int>
    decreases n,
{
    if n <= 0 {
        Seq::empty()
    } else if home(p, n - 1) == l {
        members(p, l, n - 1).push(n - 1)
    } else {
        members(p, l, n - 1)
    }
}

/// The names of the failures `m`.
pub open spec fn names_of(f: Seq<FailedTest>, m: Seq<int>) -> Seq<Seq<char>> {
    Seq::new(m.len(), |k: int| f[m[k]].name@)
}

/// The files of the failures `m`.
pub open spec fn files_of(f: Seq<FailedTest>, m: Seq<int>) -> Seq<Seq<char>> {
    Seq::new(m.len(), |k: int| f[m[k]].file_path@)
}

/// `c` is the cluster of founder `l`.
pub open spec fn is_cluster(
    c: FailureCluster,
    f: Seq<FailedTest>,
    p: Seq<Fingerprint>,
    l: int,
) -> bool {
    let m = members(p, l, p.len() as int);
    &&& c.count == m.len() as u32
    &&& c.test_names.deep_view() == names_of(f, m)
    &&& c.similarity == SIMILARITY_THRESHOLD
    &&& match p[l] {
        Fingerprint::Message(text) => {
            &&& c.pattern@ == text@
            &&& sorted_set_of(c.file_paths.deep_view(), files_of(f, m))
        },
        Fingerprint::Silent(file) => {
            &&& c.pattern@ == "Failed tests in "@ + file@ + " (no error message captured)"@
            &&& c.file_paths.deep_view() == seq![file@]
        },
    }
}

/// Rank of the cluster of founder `l`: by size, then messages before silent failures.
pub open spec fn weight(p: Seq<Fingerprint>, l: int) -> u128 {
    (2 * members(p, l, p.len() as int).len() + if p[l] is Message {
        1int
    } else {
        0int
    }) as u128
}

/// The ranks of all clusters, in the order of their founders.
pub open spec fn weights(p: Seq<Fingerprint>) -> Seq<u128> {
    let l = founders(p, p.len() as int);
    Seq::new(l.len(), |k: int| weight(p, l[k]))
}

/// `out` holds one cluster per founder, largest first.
pub open spec fn is_clustering(
    out: Seq<FailureCluster>,
    f: Seq<FailedTest>,
    p: Seq<Fingerprint>,
) -> bool {
    let l = founders(p, p.len() as int);
    exists|order: Seq<int>| #[trigger]
        is_ranking(weights(p), order) && out.len() == l.len() && forall|k: int|
            0 <= k < l.len() ==> is_cluster(#[trigger] out[k], f, p, l[order[k]])
}

/// `print` is the fingerprint of `f`: its message, normalized and clipped, or its file where the
/// message is blank.
pub open spec fn is_fingerprint(print: Fingerprint, f: FailedTest) -> bool {
    if trim(f.error@).len() > 0 {
        &&& print is Message
        &&& print->Message_0@ == clip(normalized(f.error@), MAX_ERROR_LENGTH as nat)
        &&& is_normalization(f.error@, normalized(f.error@))
    } else if f.file_path@.len() > 0 {
        print is Silent && print->Silent_0@ == f.file_path@
    } else {
        print is Silent && print->Silent_0@ == "(unknown file)"@
    }
}

pub proof fn founder_is_first(p: Seq<Fingerprint>, i: int, k: int)
    requires
        0 <= k <= i < p.len(),
    ensures
        match founder_before(p, i, k) {
            Some(l) => {
                &&& 0 <= l < k
                &&& is_founder(p, l)
                &&& joins(p[l], p[i])
                &&& founder_before(p, i, l) is None
                &&& forall|h: int| l < h <= i ==> #[trigger] founder_before(p, i, h) == Some(l)
            },
            None => forall|h: int| 0 <= h <= k ==> #[trigger] founder_before(p, i, h) is None,
        },
    decreases k,
{
    if k > 0 {
        founder_is_first(p, i, k - 1);
        if founder_before(p, i, k - 1) is None && founder_before(p, i, k) is Some {
            founder_stays(p, i, k);
        }
    } else {
        assert(founder_before(p, i, 0) is None);
    }
}

proof fn founder_stays(p: Seq<Fingerprint>, i: int, k: int)
    requires
        0 < k <= i < p.len(),
        founder_before(p, i, k) is Some,
    ensures
        forall|h: int| k <= h <= i ==> #[trigger] founder_before(p, i, h) == founder_before(p, i, k),
{
    assert forall|h: int| k <= h <= i implies #[trigger] founder_before(p, i, h) == founder_before(
        p,
        i,
        k,
    ) by {
        founder_stays_at(p, i, k, h);
    }
}

proof fn founder_stays_at(p: Seq<Fingerprint>, i: int, k: int, h: int)
    requires
        0 < k <= h <= i < p.len(),
        founder_before(p, i, k) is Some,
    ensures
        founder_before(p, i, h) == founder_before(p, i, k),
    decreases h - k,
{
    if h > k {
        founder_stays_at(p, i, k, h - 1);
    }
}

/// Every failure belongs to the cluster of one founder: its home is a founder, and it is a member
/// there and nowhere else.
pub proof fn every_failure_has_one_cluster(p: Seq<Fingerprint>, i: int, l: int)
    requires
        0 <= i < p.len(),
    ensures
        is_founder(p, home(p, i)),
        founders(p, p.len() as int).contains(home(p, i)),
        members(p, l, p.len() as int).contains(i) <==> l == home(p, i),
{
    founder_is_first(p, i, i);
    founders_hold(p, p.len() as int, home(p, i));
    members_hold(p, l, p.len() as int, i);
}

proof fn founders_hold(p: Seq<Fingerprint>, n: int, l: int)
    requires
        0 <= n <= p.len(),
    ensures
        founders(p, n).contains(l) <==> (is_founder(p, l) && l < n),
    decreases n,
{
    if n > 0 {
        founders_hold(p, n - 1, l);
        let rest = founders(p, n - 1);
        if is_founder(p, n - 1) {
            let all = founders(p, n);
            if all.contains(l) {
                let k = choose|k: int| 0 <= k < all.len() && all[k] == l;
                if k < rest.len() {
                    assert(rest[k] == l);
                }
            }
            if rest.contains(l) {
                let k = choose|k: int| 0 <= k < rest.len() && rest[k] == l;
                assert(all[k] == l);
            }
            assert(all[rest.len() as int] == n - 1);
        }
    }
}

proof fn members_hold(p: Seq<Fingerprint>, l: int, n: int, i: int)
    requires
        0 <= n <= p.len(),
        0 <= i < p.len(),
    ensures
        members(p, l, n).contains(i) <==> (home(p, i) == l && i < n),
    decreases n,
{
    if n > 0 {
        members_hold(p, l, n - 1, i);
        let rest = members(p, l, n - 1);
        if home(p, n - 1) == l {
            let all = members(p, l, n);
            if all.contains(i) {
                let k = choose|k: int| 0 <= k < all.len() && all[k] == i;
                if k < rest.len() {
                    assert(rest[k] == i);
                }
            }
            if rest.contains(i) {
                let k = choose|k: int| 0 <= k < rest.len() && rest[k] == i;
                assert(all[k] == i);
            }
            assert(all[rest.len() as int] == n - 1);
        }
    }
}

proof fn no_members_before(p: Seq<Fingerprint>, l: int, n: int)
    requires
        0 <= n <= l < p.len(),
    ensures
        members(p, l, n) == Seq::<int>::empty(),
    decreases n,
{
    if n > 0 {
        no_members_before(p, l, n - 1);
        founder_is_first(p, n - 1, n - 1);
    }
}

fn join(a: &Fingerprint, b: &Fingerprint) -> (r: bool)
    ensures
        r == joins(*a, *b),
{
    match (a, b) {
        (Fingerprint::Message(x), Fingerprint::Message(y)) => are_similar(x.as_str(), y.as_str()),
        (Fingerprint::Silent(x), Fingerprint::Silent(y)) => same(x.as_str(), y.as_str()),
        _ => false,
    }
}

/// Groups failures by their fingerprints. Taken in order, a failure joins the first cluster whose
/// founder it resembles, or else opens one. The largest cluster comes first.
pub fn group_failures(failures: &Vec<FailedTest>, prints: &Vec<Fingerprint>) -> (out: Vec<
    FailureCluster,
>)
    requires
        failures@.len() == prints@.len(),
    ensures
        is_clustering(out@, failures@, prints@),
{
    let n: usize = prints.len();
    let ghost p = prints@;
    let ghost f = failures@;
    let mut assigned: Vec<bool> = Vec::new();
    let mut i: usize = 0;
    while i < n
        invariant
            0 <= i <= n,
            assigned@.len() == i,
            forall|j: int| 0 <= j < i ==> !(#[trigger] assigned@[j]),
        decreases n - i,
    {
        assigned.push(false);
        i += 1;
    }
    let mut raw: Vec<FailureCluster> = Vec::new();
    let mut keys: Vec<u128> = Vec::new();
    i = 0;
    while i < n
        invariant
            0 <= i <= n,
            n == p.len() == f.len() == assigned@.len(),
            p == prints@,
            f == failures@,
            forall|j: int|
                i <= j < n ==> #[trigger] assigned@[j] == (founder_before(p, j, i as int) is Some),
            raw@.len() == keys@.len() == founders(p, i as int).len(),
            forall|k: int|
                0 <= k < raw@.len() ==> is_cluster(
                    #[trigger] raw@[k],
                    f,
                    p,
                    founders(p, i as int)[k],
                ),
            forall|k: int|
                0 <= k < raw@.len() ==> #[trigger] keys@[k] == weight(p, founders(p, i as int)[k]),
        decreases n - i,
    {
        if assigned[i] {
            assert(!is_founder(p, i as int));
            i += 1;
            continue ;
        }
        assert(is_founder(p, i as int));
        let mut names: Vec<String> = Vec::new();
        let mut files: Vec<String> = Vec::new();
        names.push(failures[i].name.clone());
        insert_text(&mut files, failures[i].file_path.as_str());
        let ghost mut mem: Seq<int> = seq![i as int];
        proof {
            no_members_before(p, i as int, i as int);
            assert(members(p, i as int, i + 1) =~= mem);
            assert(names.deep_view() =~= names_of(f, mem));
            assert(files_of(f, mem) =~= seq![f[i as int].file_path@]);
            assert forall|x: Seq<char>| #[trigger] listed(files.deep_view(), x) <==> listed(
                files_of(f, mem),
                x,
            ) by {
                assert(files_of(f, mem)[0] == f[i as int].file_path@);
            }
        }
        let mut j: usize = i + 1;
        while j < n
            invariant
                i < j <= n,
                n == p.len() == f.len() == assigned@.len(),
                p == prints@,
                f == failures@,
                is_founder(p, i as int),
                forall|h: int|
                    j <= h < n ==> #[trigger] assigned@[h] == (founder_before(p, h, i as int) is Some),
                forall|h: int|
                    i < h < j ==> #[trigger] assigned@[h] == (founder_before(p, h, i + 1) is Some),
                mem == members(p, i as int, j as int),
                mem.len() == names@.len(),
                forall|k: int| 0 <= k < mem.len() ==> 0 <= #[trigger] mem[k] < n,
                names.deep_view() == names_of(f, mem),
                sorted_set_of(files.deep_view(), files_of(f, mem)),
            decreases n - j,
        {
            proof {
                founder_is_first(p, j as int, i as int);
                founder_is_first(p, j as int, j as int);
                if founder_before(p, j as int, i + 1) is Some {
                    founder_stays_at(p, j as int, i + 1, j as int);
                }
            }
            if !assigned[j] && join(&prints[i], &prints[j]) {
                assigned.set(j, true);
                let ghost known = names.deep_view();
                names.push(failures[j].name.clone());
                insert_text(&mut files, failures[j].file_path.as_str());
                proof {
                    assert(home(p, j as int) == i);
                    let next = mem.push(j as int);
                    assert(names.deep_view() =~= known.push(f[j as int].name@));
                    assert(names_of(f, next) =~= names_of(f, mem).push(f[j as int].name@));
                    assert(files_of(f, next) =~= files_of(f, mem).push(f[j as int].file_path@));
                    listed_push(files_of(f, mem), f[j as int].file_path@);
                    mem = next;
                }
            } else {
                proof {
                    assert(founder_before(p, j as int, i + 1) == founder_before(p, j as int, i as int));
                    assert(home(p, j as int) != i);
                }
            }
            j += 1;
        }
        let size: usize = names.len();
        let ghost c0 = founders(p, i as int);
        let cluster = match &prints[i] {
            Fingerprint::Message(text) => {
                keys.push(2 * (size as u128) + 1);
                FailureCluster {
                    pattern: text.clone(),
                    count: #[verifier::truncate] (size as u32),
                    test_names: names,
                    file_paths: files,
                    similarity: SIMILARITY_THRESHOLD,
                }
            },
            Fingerprint::Silent(file) => {
                keys.push(2 * (size as u128));
                let only = vec![file.clone()];
                assert(only.deep_view() =~= seq![file@]);
                FailureCluster {
                    pattern: concat3(
                        "Failed tests in ",
                        file.as_str(),
                        " (no error message captured)",
                    ),
                    count: #[verifier::truncate] (size as u32),
                    test_names: names,
                    file_paths: only,
                    similarity: SIMILARITY_THRESHOLD,
                }
            },
        };
        raw.push(cluster);
        proof {
            assert(founders(p, i + 1) == c0.push(i as int));
            assert(is_cluster(cluster, f, p, i as int));
        }
        i += 1;
    }
    proof {
        assert(keys@ =~= weights(p));
    }
    let ghost cs = raw@;
    let out = rank_desc(raw, keys);
    proof {
        let l = founders(p, n as int);
        let order = choose|order: Seq<int>| #[trigger]
            is_ranking(weights(p), order) && out@ == arranged(cs, order);
        assert(is_ranking(weights(p), order));
        assert forall|k: int| 0 <= k < l.len() implies is_cluster(
            #[trigger] out@[k],
            f,
            p,
            l[order[k]],
        ) by {
            assert(out@[k] == cs[order[k]]);
        }
    }
    out
}

proof fn listed_push(list: Seq<Seq<char>>, x: Seq<char>)
    ensures
        forall|y: Seq<char>| #[trigger] listed(list.push(x), y) <==> (y == x || listed(list, y)),
{
    let next = list.push(x);
    assert forall|y: Seq<char>| #[trigger] listed(next, y) <==> (y == x || listed(list, y)) by {
        if listed(next, y) {
            let i = choose|i: int| 0 <= i < next.len() && #[trigger] next[i] == y;
            if i < list.len() {
                assert(list[i] == y);
            }
        }
        if listed(list, y) {
            let i = choose|i: int| 0 <= i < list.len() && #[trigger] list[i] == y;
            assert(next[i] == y);
        }
        assert(next[list.len() as int] == x);
    }
}

/// The fingerprint of each failure.
pub fn fingerprints(failures: &Vec<FailedTest>) -> (prints: Vec<Fingerprint>)
    ensures
        prints@.len() == failures@.len(),
        forall|i: int|
            0 <= i < failures@.len() ==> is_fingerprint(#[trigger] prints@[i], failures@[i]),
{
    let mut prints: Vec<Fingerprint> = Vec::new();
    let mut i: usize = 0;
    while i < failures.len()
        invariant
            0 <= i <= failures@.len(),
            prints@.len() == i,
            forall|k: int| 0 <= k < i ==> is_fingerprint(#[trigger] prints@[k], failures@[k]),
        decreases failures@.len() - i,
    {
        let f = &failures[i];
        let print = if trim_chars(&chars_of(f.error.as_str())).len() > 0 {
            let text = normalize_error_message(f.error.as_str());
            Fingerprint::Message(truncate_at_char_boundary(text.as_str(), MAX_ERROR_LENGTH))
        } else if !f.file_path.as_str().is_empty() {
            Fingerprint::Silent(f.file_path.clone())
        } else {
            Fingerprint::Silent("(unknown file)".to_owned())
        };
        prints.push(print);
        i += 1;
    }
    prints
}

/// Clusters failed tests by the similarity of their error messages; failures without a message
/// are grouped by file. The largest cluster comes first.
pub fn cluster_failures(failures: &Vec<FailedTest>) -> (out: Vec<FailureCluster>)
    ensures
        exists|prints: Seq<Fingerprint>|
            prints.len() == failures@.len() && (forall|i: int|
                0 <= i < failures@.len() ==> is_fingerprint(#[trigger] prints[i], failures@[i]))
                && #[trigger] is_clustering(out@, failures@, prints),
{
    let prints = fingerprints(failures);
    group_failures(failures, &prints)
}

} // verus!
