//! What results look like in a terminal.
use vstd::prelude::*;
use vstd::string::*;
use vstd::utf8::encode_utf8;

use crate::cluster::{clip, truncate_at_char_boundary, Share};
use crate::duration::rounded;
use crate::run::{ComparisonResult, Fraction};
use crate::status::{FAILED, PASSED, SKIPPED};
use crate::text::{concat2, concat3, decimal, decimal_of, same};

verus! {

/// The arrow of a trend.
pub open spec fn arrow(trend: Seq<char>) -> Seq<char> {
    if trend == "improving"@ {
        "^"@
    } else if trend == "declining"@ {
        "v"@
    } else if trend == "stable"@ {
        "~"@
    } else {
        ""@
    }
}

/// The arrow of a trend.
pub fn trend_arrow(trend: &str) -> (r: &'static str)
    ensures
        r@ == arrow(trend@),
{
    if same(trend, "improving") {
        "^"
    } else if same(trend, "declining") {
        "v"
    } else if same(trend, "stable") {
        "~"
    } else {
        ""
    }
}

/// A number of things.
pub open spec fn counted(count: nat, word: Seq<char>) -> Seq<char> {
    decimal(count) + " "@ + word + if count == 1 {
        ""@
    } else {
        "s"@
    }
}

/// A number of things: `1 test`, `2 tests`.
pub fn plural(count: usize, word: &str) -> (r: String)
    ensures
        r@ == counted(count as nat, word@),
{
    let head = concat3(decimal_of(count as u64).as_str(), " ", word);
    if count == 1 {
        concat2(head.as_str(), "")
    } else {
        concat2(head.as_str(), "s")
    }
}

/// `s`, cut where it has more than `max` bytes, with an ellipsis in place of the rest.
pub open spec fn ellipsis(s: Seq<char>, max: nat) -> Seq<char> {
    if encode_utf8(s).len() <= max {
        s
    } else {
        clip(
            s,
            if max >= 3 {
                (max - 3) as nat
            } else {
                0
            },
        ) + "..."@
    }
}

/// `s`, cut between characters where it has more than `max_len` bytes, with an ellipsis in place of
/// the rest.
pub fn truncate_ellipsis(s: &str, max_len: usize) -> (r: String)
    ensures
        r@ == ellipsis(s@, max_len as nat),
{
    if s.as_bytes().len() <= max_len {
        return s.to_owned();
    }
    let target: usize = if max_len >= 3 {
        max_len - 3
    } else {
        0
    };
    concat2(truncate_at_char_boundary(s, target).as_str(), "...")
}

/// A flip rate in whole percent.
pub fn flip_percent(rate: &Share) -> (r: u128)
    requires
        rate.whole > 0,
    ensures
        r == rounded(100 * rate.part as int, rate.whole as int),
{
    let num: u128 = 100 * (rate.part as u128);
    let den: u128 = rate.whole as u128;
    (2 * num + den) / (2 * den)
}

/// How good a number is.
#[derive(Clone, Copy, PartialEq, Eq, Structural, Debug)]
pub enum Band {
    Good,
    Fair,
    Poor,
}

/// How good a line coverage is: from four fifths on it is good, from one half on fair.
pub open spec fn coverage_quality(covered: int, total: int) -> Band {
    if total > 0 && 5 * covered >= 4 * total {
        Band::Good
    } else if total > 0 && 2 * covered >= total {
        Band::Fair
    } else {
        Band::Poor
    }
}

/// How good a line coverage is.
pub fn coverage_band(covered: i32, total: i32) -> (r: Band)
    ensures
        r == coverage_quality(covered as int, total as int),
{
    let c: i64 = covered as i64;
    let t: i64 = total as i64;
    if t > 0 && 5 * c >= 4 * t {
        Band::Good
    } else if t > 0 && 2 * c >= t {
        Band::Fair
    } else {
        Band::Poor
    }
}

/// How good a health label is.
pub open spec fn label_quality(label: Seq<char>) -> Band {
    if label == "excellent"@ || label == "good"@ {
        Band::Good
    } else if label == "fair"@ {
        Band::Fair
    } else {
        Band::Poor
    }
}

/// How good a health label is.
pub fn label_band(label: &str) -> (r: Band)
    ensures
        r == label_quality(label@),
{
    if same(label, "excellent") || same(label, "good") {
        Band::Good
    } else if same(label, "fair") {
        Band::Fair
    } else {
        Band::Poor
    }
}

/// The mark of a status in a history; a status without one is shown as it is.
pub open spec fn status_text(status: Seq<char>) -> Seq<char> {
    if status == PASSED@ {
        "PASS"@
    } else if status == FAILED@ {
        "FAIL"@
    } else if status == SKIPPED@ {
        "SKIP"@
    } else {
        status
    }
}

/// The mark of a status in a history.
pub fn status_mark(status: &str) -> (r: String)
    ensures
        r@ == status_text(status@),
{
    if same(status, PASSED) {
        "PASS".to_owned()
    } else if same(status, FAILED) {
        "FAIL".to_owned()
    } else if same(status, SKIPPED) {
        "SKIP".to_owned()
    } else {
        status.to_owned()
    }
}

/// Whether a change of the pass rate is worth showing: a twentieth of a percentage point or more.
pub open spec fn is_notable_rate(f: Fraction) -> bool {
    20 * f.num >= f.den || 20 * f.num <= -f.den
}

/// Whether a change of the pass rate is worth showing.
pub fn shows_rate(f: &Fraction) -> (r: bool)
    requires
        f.den > 0,
    ensures
        r == is_notable_rate(*f),
{
    let least: i128 = if f.den % 20 == 0 {
        f.den / 20
    } else {
        f.den / 20 + 1
    };
    f.num >= least || f.num <= -least
}

/// Whether a change of the duration, in nanoseconds, is worth showing: fifty milliseconds or more.
pub fn shows_duration(delta: i128) -> (r: bool)
    ensures
        r == (delta >= 50_000_000 || delta <= -50_000_000),
{
    delta >= 50_000_000 || delta <= -50_000_000
}

/// `list`, with `text` at its end where `cond` holds.
pub open spec fn push_when(list: Seq<Seq<char>>, cond: bool, text: Seq<char>) -> Seq<Seq<char>> {
    if cond {
        list.push(text)
    } else {
        list
    }
}

/// The parts of the line that sums a comparison up.
pub open spec fn comparison_parts(new: nat, fixed: nat, old: nat) -> Seq<Seq<char>> {
    let a = push_when(Seq::empty(), new > 0, counted(new, "new failure"@));
    let b = push_when(a, fixed > 0, decimal(fixed) + " fixed"@);
    let c = push_when(b, old > 0, decimal(old) + " pre-existing"@);
    push_when(c, new == 0 && fixed == 0 && old == 0, "no changes"@)
}

/// The parts of the line that sums a comparison up.
pub fn comparison_stats(c: &ComparisonResult) -> (r: Vec<String>)
    ensures
        r.deep_view() == comparison_parts(
            c.new_failures@.len(),
            c.fixed@.len(),
            c.pre_existing_failures@.len(),
        ),
{
    let new: usize = c.new_failures.len();
    let fixed: usize = c.fixed.len();
    let pre: usize = c.pre_existing_failures.len();
    let mut r: Vec<String> = Vec::new();
    let ghost v0 = Seq::<Seq<char>>::empty();
    assert(r.deep_view() =~= v0);
    if new > 0 {
        r.push(plural(new, "new failure"));
    }
    let ghost v1 = r.deep_view();
    assert(v1 =~= push_when(v0, new > 0, counted(new as nat, "new failure"@)));
    if fixed > 0 {
        r.push(concat2(decimal_of(fixed as u64).as_str(), " fixed"));
    }
    let ghost v2 = r.deep_view();
    assert(v2 =~= push_when(v1, fixed > 0, decimal(fixed as nat) + " fixed"@));
    if pre > 0 {
        r.push(concat2(decimal_of(pre as u64).as_str(), " pre-existing"));
    }
    let ghost v3 = r.deep_view();
    assert(v3 =~= push_when(v2, pre > 0, decimal(pre as nat) + " pre-existing"@));
    if new == 0 && fixed == 0 && pre == 0 {
        r.push("no changes".to_owned());
    }
    assert(r.deep_view() =~= push_when(
        v3,
        new == 0 && fixed == 0 && pre == 0,
        "no changes"@,
    ));
    r
}

} // verus!
