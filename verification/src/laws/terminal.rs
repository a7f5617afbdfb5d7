//! What the terminal shows.
use vstd::prelude::*;
use vstd::utf8::encode_utf8;

use crate::cluster::clip;
use crate::display::{
    arrow, comparison_parts, coverage_quality, ellipsis, is_notable_rate, label_quality, status_text,
    Band,
};
use crate::run::Fraction;
use crate::laws::clusters::clips_fit;
use crate::text::decimal;

verus! {

proof fn sizes_add(a: Seq<char>, b: Seq<char>)
    ensures
        encode_utf8(a + b).len() == encode_utf8(a).len() + encode_utf8(b).len(),
    decreases a.len(),
{
    if a.len() == 0 {
        assert(a + b =~= b);
        assert(encode_utf8(a).len() == 0);
    } else {
        sizes_add(a.drop_first(), b);
        assert((a + b).drop_first() =~= a.drop_first() + b);
    }
}

/// A text that fits is shown as it is. A longer one is shown by as much of its beginning as leaves
/// room for three dots, which then end it.
pub proof fn long_texts_are_cut(s: Seq<char>, max: nat)
    requires
        max >= 3,
    ensures
        encode_utf8(ellipsis(s, max)).len() <= max,
        encode_utf8(s).len() <= max ==> ellipsis(s, max) == s,
        encode_utf8(s).len() > max ==> exists|n: int|
            0 <= n < s.len() && ellipsis(s, max) == #[trigger] s.take(n) + seq!['.', '.', '.']
                && encode_utf8(s.take(n + 1)).len() > max - 3,
{
    if encode_utf8(s).len() > max {
        let room = (max - 3) as nat;
        clips_fit(s, room);
        reveal_strlit("...");
        assert("..."@ =~= seq!['.', '.', '.']);
        sizes_add(clip(s, room), "..."@);
        reveal_with_fuel(encode_utf8, 4);
        let d = seq!['.', '.', '.'];
        assert(d.drop_first() =~= seq!['.', '.']);
        assert(d.drop_first().drop_first() =~= seq!['.']);
        assert(d.drop_first().drop_first().drop_first() =~= Seq::<char>::empty());
        assert(encode_utf8(d).len() == 3);
        let n = choose|n: int| 0 <= n <= s.len() && clip(s, room) == #[trigger] s.take(n);
        assert(clip(s, room).len() == n);
        assert(ellipsis(s, max) == s.take(n) + d);
    }
}

/// A coverage is good from 80 percent on and fair from 50 percent on.
pub proof fn coverage_is_judged(covered: int, total: int)
    requires
        0 <= covered <= total,
        total > 0,
    ensures
        coverage_quality(covered, total) == Band::Good <==> 100 * covered >= 80 * total,
        coverage_quality(covered, total) == Band::Fair <==> 50 * total <= 100 * covered < 80 * total,
        coverage_quality(covered, total) == Band::Poor <==> 100 * covered < 50 * total,
        coverage_quality(0, 0) == Band::Poor,
{
}

/// A change of the pass rate is shown from five hundredths of a point on, whichever way it goes.
pub proof fn small_changes_are_not_shown(f: Fraction, back: Fraction)
    requires
        f.den > 0,
        back.num == -f.num,
        back.den == f.den,
    ensures
        is_notable_rate(f) == is_notable_rate(back),
        f.num >= 0 ==> (is_notable_rate(f) <==> 100 * f.num >= 5 * f.den),
{
}

/// Trends, labels and statuses are shown by their marks; what has none of its own is shown as it is
/// or not at all.
pub proof fn words_have_marks(word: Seq<char>)
    ensures
        arrow("improving"@) == "^"@,
        arrow("declining"@) == "v"@,
        arrow("stable"@) == "~"@,
        label_quality("excellent"@) == Band::Good,
        label_quality("good"@) == Band::Good,
        label_quality("fair"@) == Band::Fair,
        label_quality("poor"@) == Band::Poor,
        label_quality("critical"@) == Band::Poor,
        status_text("passed"@) == "PASS"@,
        status_text("failed"@) == "FAIL"@,
        status_text("skipped"@) == "SKIP"@,
        word != "passed"@ && word != "failed"@ && word != "skipped"@ ==> status_text(word) == word,
        word != "improving"@ && word != "declining"@ && word != "stable"@ ==> arrow(word) == ""@,
{
    reveal_strlit("improving");
    reveal_strlit("declining");
    reveal_strlit("stable");
    reveal_strlit("excellent");
    reveal_strlit("good");
    reveal_strlit("fair");
    reveal_strlit("poor");
    reveal_strlit("critical");
    reveal_strlit("passed");
    reveal_strlit("failed");
    reveal_strlit("skipped");
    assert("improving"@[0] == 'i' && "declining"@[0] == 'd' && "stable"@[0] == 's');
    assert("excellent"@[0] == 'e' && "good"@[0] == 'g' && "fair"@[0] == 'f');
    assert("poor"@[0] == 'p' && "critical"@[0] == 'c');
    assert("passed"@[0] == 'p' && "failed"@[0] == 'f' && "skipped"@[0] == 's');
}

/// A comparison names each group that is not empty, and nothing else, and says so where nothing
/// changed.
pub proof fn comparisons_name_their_groups(new: nat, fixed: nat, old: nat)
    ensures
        comparison_parts(0, 0, 0) == seq!["no changes"@],
        new > 0 || fixed > 0 || old > 0 ==> comparison_parts(new, fixed, old).len() == (if new > 0 {
            1int
        } else {
            0
        }) + (if fixed > 0 {
            1int
        } else {
            0
        }) + (if old > 0 {
            1int
        } else {
            0
        }),
        new == 1 ==> comparison_parts(new, fixed, old)[0] == "1 new failure"@,
        new > 1 ==> comparison_parts(new, fixed, old)[0] == decimal(new) + " new failures"@,
        fixed > 0 ==> comparison_parts(new, fixed, old)[if new > 0 {
            1
        } else {
            0
        }] == decimal(fixed) + " fixed"@,
        old > 0 ==> comparison_parts(new, fixed, old).last() == decimal(old) + " pre-existing"@,
{
    reveal_strlit("1 new failure");
    reveal_strlit(" new failures");
    reveal_strlit("new failure");
    reveal_strlit(" ");
    reveal_strlit("s");
    reveal_strlit("");
    assert(comparison_parts(0, 0, 0) =~= seq!["no changes"@]);
    if new == 1 {
        assert(decimal(1) =~= seq!['1']);
        assert(decimal(1) + " "@ + "new failure"@ + ""@ =~= "1 new failure"@);
    }
    if new > 1 {
        assert(decimal(new) + " "@ + "new failure"@ + "s"@ =~= decimal(new) + " new failures"@);
    }
}

} // verus!
