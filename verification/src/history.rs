//! The two histories of actions: what it means for one to be kept in
//! order of time, for one to be drawn from the other, and to cut both back
//! to a point in time.

use vstd::prelude::*;
use crate::action::ActionView;

verus! {

/// No action of `s` is earlier than one before it.
pub open spec fn times_sorted(s: Seq<ActionView>) -> bool {
    forall|i: int, j: int| 0 <= i <= j < s.len() ==> (#[trigger] s[i]).time <= (#[trigger] s[j]).time
}

/// Every action of `s` is earlier than `t`.
pub open spec fn all_before(s: Seq<ActionView>, t: usize) -> bool {
    forall|i: int| 0 <= i < s.len() ==> (#[trigger] s[i]).time < t
}

/// `a` can be had from `b` by leaving actions out.
pub open spec fn is_subseq(a: Seq<ActionView>, b: Seq<ActionView>) -> bool
    decreases b.len(),
{
    if a.len() == 0 {
        true
    } else if b.len() == 0 {
        false
    } else if a.last() == b.last() && is_subseq(a.drop_last(), b.drop_last()) {
        true
    } else {
        is_subseq(a, b.drop_last())
    }
}

/// What is left of `s` when actions are taken off its end for as long as
/// the last one is at `t` or later.
pub open spec fn kept_before(s: Seq<ActionView>, t: usize) -> Seq<ActionView>
    decreases s.len(),
{
    if s.len() > 0 && s.last().time >= t {
        kept_before(s.drop_last(), t)
    } else {
        s
    }
}

/// What is kept is a beginning of the history.
pub proof fn lemma_kept_is_prefix(s: Seq<ActionView>, t: usize)
    ensures
        kept_before(s, t).len() <= s.len(),
        kept_before(s, t) == s.take(kept_before(s, t).len() as int),
    decreases s.len(),
{
    if s.len() > 0 && s.last().time >= t {
        let head = s.drop_last();
        lemma_kept_is_prefix(head, t);
        let n = kept_before(head, t).len() as int;
        assert(head.take(n) =~= s.take(n));
    } else {
        assert(s.take(s.len() as int) =~= s);
    }
}

/// Of a history in order of time, exactly the actions earlier than `t` are
/// kept: none at `t` or later stays, and none earlier than `t` goes.
pub proof fn lemma_kept_of_sorted(s: Seq<ActionView>, t: usize)
    requires
        times_sorted(s),
    ensures
        all_before(kept_before(s, t), t),
        times_sorted(kept_before(s, t)),
        kept_before(s, t) == s.filter(|a: ActionView| a.time < t),
    decreases s.len(),
{
    let early = |a: ActionView| a.time < t;
    if s.len() > 0 && s.last().time >= t {
        let head = s.drop_last();
        assert forall|i: int, j: int| 0 <= i <= j < head.len() implies (#[trigger] head[i]).time <= (
        #[trigger] head[j]).time by {
            assert(head[i] == s[i] && head[j] == s[j]);
        }
        lemma_kept_of_sorted(head, t);
        reveal(Seq::filter);
        assert(s.filter(early) == head.filter(early));
    } else {
        assert forall|i: int| 0 <= i < s.len() implies (#[trigger] s[i]).time < t by {
            assert(s[i].time <= s[s.len() - 1].time);
        }
        lemma_filter_keeps_all(s, t);
    }
}

/// Where every action is earlier than `t`, choosing those earlier than `t`
/// leaves none out.
pub proof fn lemma_filter_keeps_all(s: Seq<ActionView>, t: usize)
    requires
        all_before(s, t),
    ensures
        s.filter(|a: ActionView| a.time < t) == s,
    decreases s.len(),
{
    let early = |a: ActionView| a.time < t;
    reveal(Seq::filter);
    if s.len() > 0 {
        let head = s.drop_last();
        assert forall|i: int| 0 <= i < head.len() implies (#[trigger] head[i]).time < t by {
            assert(head[i] == s[i]);
        }
        lemma_filter_keeps_all(head, t);
        assert(early(s.last()));
        assert(head.push(s.last()) =~= s);
    } else {
        assert(s.filter(early) =~= s);
    }
}

/// Every action of a history drawn from another is one of the other's.
pub proof fn lemma_subseq_members(a: Seq<ActionView>, b: Seq<ActionView>)
    requires
        is_subseq(a, b),
    ensures
        forall|i: int| 0 <= i < a.len() ==> b.contains(#[trigger] a[i]),
    decreases b.len(),
{
    if a.len() > 0 {
        let bh = b.drop_last();
        if a.last() == b.last() && is_subseq(a.drop_last(), bh) {
            let ah = a.drop_last();
            lemma_subseq_members(ah, bh);
            assert forall|i: int| 0 <= i < a.len() implies b.contains(#[trigger] a[i]) by {
                if i < ah.len() {
                    assert(bh.contains(ah[i]));
                    let k = choose|k: int| 0 <= k < bh.len() && bh[k] == ah[i];
                    assert(b[k] == a[i]);
                } else {
                    assert(b[b.len() - 1] == a[i]);
                }
            }
        } else {
            lemma_subseq_members(a, bh);
            assert forall|i: int| 0 <= i < a.len() implies b.contains(#[trigger] a[i]) by {
                assert(bh.contains(a[i]));
                let k = choose|k: int| 0 <= k < bh.len() && bh[k] == a[i];
                assert(b[k] == a[i]);
            }
        }
    }
}

/// A history drawn from one whose actions are all earlier than `t` has only
/// actions earlier than `t`.
pub proof fn lemma_subseq_all_before(a: Seq<ActionView>, b: Seq<ActionView>, t: usize)
    requires
        is_subseq(a, b),
        all_before(b, t),
    ensures
        all_before(a, t),
{
    lemma_subseq_members(a, b);
    assert forall|i: int| 0 <= i < a.len() implies (#[trigger] a[i]).time < t by {
        assert(b.contains(a[i]));
        let k = choose|k: int| 0 <= k < b.len() && b[k] == a[i];
        assert(b[k].time < t);
    }
}

/// The last action of a history drawn from one in order of time is not
/// later than the other's last.
pub proof fn lemma_subseq_last(a: Seq<ActionView>, b: Seq<ActionView>)
    requires
        is_subseq(a, b),
        times_sorted(b),
        a.len() > 0,
    ensures
        b.len() > 0,
        a.last().time <= b.last().time,
{
    lemma_subseq_members(a, b);
    assert(b.contains(a[a.len() - 1]));
    let k = choose|k: int| 0 <= k < b.len() && b[k] == a[a.len() - 1];
    assert(b[k].time <= b[b.len() - 1].time);
}

/// A history is still drawn from another after the same action was added to
/// both, and after an action was added to the other alone.
pub proof fn lemma_subseq_push(a: Seq<ActionView>, b: Seq<ActionView>, x: ActionView)
    requires
        is_subseq(a, b),
    ensures
        is_subseq(a.push(x), b.push(x)),
        is_subseq(a, b.push(x)),
{
    assert(a.push(x).drop_last() =~= a);
    assert(b.push(x).drop_last() =~= b);
    assert(a.push(x).last() == x && b.push(x).last() == x);
}

/// Cutting a history and the one it is drawn from back to the same point in
/// time leaves the first drawn from the second.
pub proof fn lemma_subseq_kept(a: Seq<ActionView>, b: Seq<ActionView>, t: usize)
    requires
        is_subseq(a, b),
        times_sorted(b),
    ensures
        is_subseq(kept_before(a, t), kept_before(b, t)),
    decreases b.len(),
{
    if a.len() == 0 {
    } else if b.len() > 0 && b.last().time >= t {
        let bh = b.drop_last();
        assert forall|i: int, j: int| 0 <= i <= j < bh.len() implies (#[trigger] bh[i]).time <= (
        #[trigger] bh[j]).time by {
            assert(bh[i] == b[i] && bh[j] == b[j]);
        }
        if a.last() == b.last() && is_subseq(a.drop_last(), bh) {
            lemma_subseq_kept(a.drop_last(), bh, t);
        } else {
            lemma_subseq_kept(a, bh, t);
        }
    } else {
        assert forall|i: int| 0 <= i < b.len() implies (#[trigger] b[i]).time < t by {
            assert(b[i].time <= b[b.len() - 1].time);
        }
        lemma_subseq_all_before(a, b, t);
        assert(a[a.len() - 1].time < t);
    }
}

/// A history in order of time stays so when an action not earlier than its
/// last is added.
pub proof fn lemma_sorted_push(s: Seq<ActionView>, x: ActionView)
    requires
        times_sorted(s),
        s.len() > 0 ==> s.last().time <= x.time,
    ensures
        times_sorted(s.push(x)),
{
    let p = s.push(x);
    assert forall|i: int, j: int| 0 <= i <= j < p.len() implies (#[trigger] p[i]).time <= (
    #[trigger] p[j]).time by {
        if j < s.len() {
            assert(p[i] == s[i] && p[j] == s[j]);
        } else if i < s.len() {
            assert(p[i] == s[i]);
            assert(s[i].time <= s[s.len() - 1].time);
        }
    }
}

} // verus!
