//! Sorted sequences of conditions.

use crate::trigger::Trigger;
use vstd::prelude::*;

verus! {

/// Whether each condition precedes all that follow it. The order is strict,
/// so a sorted sequence holds no condition twice.
pub open spec fn sorted(s: Seq<Trigger>) -> bool {
    forall|i: int, j: int| 0 <= i < j < s.len() ==> #[trigger] s[i].precedes(#[trigger] s[j])
}

/// How many conditions of `s` precede `t`.
pub open spec fn rank(s: Seq<Trigger>, t: Trigger) -> nat
    decreases s.len(),
{
    if s.len() == 0 {
        0
    } else {
        rank(s.drop_last(), t) + if s.last().precedes(t) {
            1nat
        } else {
            0nat
        }
    }
}

/// `s` with `t` put behind the conditions that precede it.
pub open spec fn placed(s: Seq<Trigger>, t: Trigger) -> Seq<Trigger> {
    s.insert(rank(s, t) as int, t)
}

/// Where the conditions that precede `t` are exactly the first `i`, the rank
/// of `t` is `i`.
pub proof fn lemma_rank_at_split(s: Seq<Trigger>, t: Trigger, i: int)
    requires
        0 <= i <= s.len(),
        forall|j: int| 0 <= j < i ==> (#[trigger] s[j]).precedes(t),
        forall|j: int| i <= j < s.len() ==> !(#[trigger] s[j]).precedes(t),
    ensures
        rank(s, t) == i,
    decreases s.len(),
{
    if s.len() > 0 {
        let front = s.drop_last();
        if i == s.len() {
            assert(s[i - 1].precedes(t));
            lemma_rank_at_split(front, t, i - 1);
        } else {
            assert(!s[s.len() - 1].precedes(t));
            lemma_rank_at_split(front, t, i);
        }
    }
}

/// Along a sorted sequence the thresholds never fall.
pub proof fn lemma_sorted_thresholds(s: Seq<Trigger>)
    requires
        sorted(s),
    ensures
        forall|i: int, j: int|
            0 <= i <= j < s.len() ==> (#[trigger] s[i]).threshold() <= (#[trigger] s[j]).threshold(),
{
    assert forall|i: int, j: int| 0 <= i <= j < s.len() implies (#[trigger] s[i]).threshold() <= (
    #[trigger] s[j]).threshold() by {
        if i < j {
            assert(s[i].precedes(s[j]));
        }
    }
}

/// A sorted sequence holds no condition twice.
pub proof fn lemma_sorted_no_duplicates(s: Seq<Trigger>)
    requires
        sorted(s),
    ensures
        s.no_duplicates(),
{
    assert forall|i: int, j: int| 0 <= i < s.len() && 0 <= j < s.len() && i != j implies s[i]
        != s[j] by {
        s[i].lemma_total(s[j]);
        if i < j {
            assert(s[i].precedes(s[j]));
        } else {
            assert(s[j].precedes(s[i]));
        }
    }
}

/// Putting a new condition into a sorted sequence keeps it sorted, and adds
/// that condition and no other.
pub proof fn lemma_placed(s: Seq<Trigger>, t: Trigger)
    requires
        sorted(s),
        !s.contains(t),
    ensures
        sorted(placed(s, t)),
        placed(s, t).len() == s.len() + 1,
        forall|x: Trigger| placed(s, t).contains(x) <==> (s.contains(x) || x == t),
{
    let i = first_not_before(s, t, 0);
    lemma_first_not_before(s, t, 0);
    lemma_rank_at_split(s, t, i);
    let r = placed(s, t);
    assert forall|j: int| i <= j < s.len() implies t.precedes(#[trigger] s[j]) by {
        assert(s.contains(s[j]));
        t.lemma_total(s[j]);
    }
    assert forall|a: int, b: int| 0 <= a < b < r.len() implies #[trigger] r[a].precedes(
        #[trigger] r[b],
    ) by {
        if b < i {
            assert(s[a].precedes(s[b]));
        } else if b == i {
            assert(s[a].precedes(t));
        } else if a < i {
            assert(s[a].precedes(s[b - 1]));
        } else if a == i {
            assert(t.precedes(s[b - 1]));
        } else {
            assert(s[a - 1].precedes(s[b - 1]));
        }
    }
    assert forall|x: Trigger| r.contains(x) <==> (s.contains(x) || x == t) by {
        if r.contains(x) {
            let k = choose|k: int| 0 <= k < r.len() && r[k] == x;
            if k < i {
                assert(s[k] == x);
            } else if k > i {
                assert(s[k - 1] == x);
            }
        }
        if s.contains(x) {
            let k = choose|k: int| 0 <= k < s.len() && s[k] == x;
            if k < i {
                assert(r[k] == x);
            } else {
                assert(r[k + 1] == x);
            }
        }
        if x == t {
            assert(r[i] == x);
        }
    }
}

/// The first index from `from` on whose condition does not precede `t`.
pub open spec fn first_not_before(s: Seq<Trigger>, t: Trigger, from: int) -> int
    decreases s.len() - from,
{
    if 0 <= from < s.len() && s[from].precedes(t) {
        first_not_before(s, t, from + 1)
    } else {
        from
    }
}

/// In a sorted sequence the conditions that precede `t` come first.
pub proof fn lemma_first_not_before(s: Seq<Trigger>, t: Trigger, from: int)
    requires
        sorted(s),
        0 <= from <= s.len(),
        forall|j: int| 0 <= j < from ==> (#[trigger] s[j]).precedes(t),
    ensures
        from <= first_not_before(s, t, from) <= s.len(),
        forall|j: int| 0 <= j < first_not_before(s, t, from) ==> (#[trigger] s[j]).precedes(t),
        forall|j: int|
            first_not_before(s, t, from) <= j < s.len() ==> !(#[trigger] s[j]).precedes(t),
    decreases s.len() - from,
{
    if from < s.len() && s[from].precedes(t) {
        lemma_first_not_before(s, t, from + 1);
    } else if from < s.len() {
        assert forall|j: int| from <= j < s.len() implies !(#[trigger] s[j]).precedes(t) by {
            if j > from && s[j].precedes(t) {
                assert(s[from].precedes(s[j]));
                s[from].lemma_transitive(s[j], t);
            }
        }
    }
}

/// Two sorted sequences that hold the same conditions are equal.
pub proof fn lemma_sorted_unique(a: Seq<Trigger>, b: Seq<Trigger>)
    requires
        sorted(a),
        sorted(b),
        forall|x: Trigger| a.contains(x) <==> b.contains(x),
    ensures
        a == b,
    decreases a.len(),
{
    lemma_sorted_no_duplicates(a);
    lemma_sorted_no_duplicates(b);
    if a.len() == 0 {
        if b.len() > 0 {
            assert(b.contains(b[0]));
        }
        assert(a =~= b);
    } else {
        assert(a.contains(a.last()));
        assert(b.len() > 0);
        assert(b.contains(b.last()));
        // The last of each is the greatest of both.
        let la = a.last();
        let lb = b.last();
        la.lemma_total(lb);
        if la != lb {
            let ia = choose|k: int| 0 <= k < a.len() && a[k] == lb;
            let ib = choose|k: int| 0 <= k < b.len() && b[k] == la;
            if ia < a.len() - 1 {
                assert(a[ia].precedes(a[a.len() - 1]));
            }
            if ib < b.len() - 1 {
                assert(b[ib].precedes(b[b.len() - 1]));
            }
            assert(false);
        }
        let fa = a.drop_last();
        let fb = b.drop_last();
        assert forall|x: Trigger| fa.contains(x) <==> fb.contains(x) by {
            if fa.contains(x) {
                let k = choose|k: int| 0 <= k < fa.len() && fa[k] == x;
                assert(a[k] == x);
                assert(a.contains(x));
                assert(a[k].precedes(a[a.len() - 1]));
                x.lemma_total(la);
                let m = choose|m: int| 0 <= m < b.len() && b[m] == x;
                assert(fb[m] == x);
            }
            if fb.contains(x) {
                let k = choose|k: int| 0 <= k < fb.len() && fb[k] == x;
                assert(b[k] == x);
                assert(b.contains(x));
                assert(b[k].precedes(b[b.len() - 1]));
                x.lemma_total(lb);
                let m = choose|m: int| 0 <= m < a.len() && a[m] == x;
                assert(fa[m] == x);
            }
        }
        assert(sorted(fa)) by {
            assert forall|i: int, j: int| 0 <= i < j < fa.len() implies #[trigger] fa[i].precedes(
                #[trigger] fa[j],
            ) by {
                assert(a[i].precedes(a[j]));
            }
        }
        assert(sorted(fb)) by {
            assert forall|i: int, j: int| 0 <= i < j < fb.len() implies #[trigger] fb[i].precedes(
                #[trigger] fb[j],
            ) by {
                assert(b[i].precedes(b[j]));
            }
        }
        lemma_sorted_unique(fa, fb);
        assert(a =~= fa.push(la));
        assert(b =~= fb.push(lb));
    }
}

/// What is left of a sorted sequence after some conditions are taken out is
/// sorted.
pub proof fn lemma_filter_sorted(s: Seq<Trigger>, keep: spec_fn(Trigger) -> bool)
    requires
        sorted(s),
    ensures
        sorted(s.filter(keep)),
    decreases s.len(),
{
    reveal(Seq::filter);
    if s.len() > 0 {
        let front = s.drop_last();
        assert(sorted(front)) by {
            assert forall|i: int, j: int| 0 <= i < j < front.len() implies #[trigger] front[i].precedes(
                #[trigger] front[j],
            ) by {
                assert(s[i].precedes(s[j]));
            }
        }
        lemma_filter_sorted(front, keep);
        let kept = front.filter(keep);
        if keep(s.last()) {
            let r = kept.push(s.last());
            assert forall|i: int, j: int| 0 <= i < j < r.len() implies #[trigger] r[i].precedes(
                #[trigger] r[j],
            ) by {
                if j < kept.len() {
                    assert(kept[i].precedes(kept[j]));
                } else {
                    lemma_filter_members(front, keep);
                    assert(kept.contains(kept[i]));
                    let k = choose|k: int| 0 <= k < front.len() && front[k] == kept[i];
                    assert(s[k].precedes(s[s.len() - 1]));
                }
            }
        }
    }
}

/// A filtered sequence holds the conditions of the sequence that are kept.
pub proof fn lemma_filter_members(s: Seq<Trigger>, keep: spec_fn(Trigger) -> bool)
    ensures
        forall|x: Trigger| #[trigger] s.filter(keep).contains(x) <==> (s.contains(x) && keep(x)),
    decreases s.len(),
{
    reveal(Seq::filter);
    let r = s.filter(keep);
    if s.len() > 0 {
        let front = s.drop_last();
        lemma_filter_members(front, keep);
        let kept = front.filter(keep);
        assert forall|x: Trigger| #[trigger] r.contains(x) <==> (s.contains(x) && keep(x)) by {
            if r.contains(x) {
                let k = choose|k: int| 0 <= k < r.len() && r[k] == x;
                if k < kept.len() {
                    assert(kept[k] == x);
                    assert(kept.contains(x));
                    let m = choose|m: int| 0 <= m < front.len() && front[m] == x;
                    assert(s[m] == x);
                } else {
                    assert(x == s.last());
                    assert(s[s.len() - 1] == x);
                }
            }
            if s.contains(x) && keep(x) {
                let m = choose|m: int| 0 <= m < s.len() && s[m] == x;
                if m < front.len() {
                    assert(front[m] == x);
                    assert(front.contains(x));
                    assert(kept.contains(x));
                    let k = choose|k: int| 0 <= k < kept.len() && kept[k] == x;
                    assert(r[k] == x);
                } else {
                    assert(r[r.len() - 1] == x);
                }
            }
        }
    } else {
        assert forall|x: Trigger| #[trigger] r.contains(x) <==> (s.contains(x) && keep(x)) by {
            if r.contains(x) {
                let k = choose|k: int| 0 <= k < r.len() && r[k] == x;
            }
            if s.contains(x) {
                let k = choose|k: int| 0 <= k < s.len() && s[k] == x;
            }
        }
    }
}

/// Filtering twice keeps what both filters keep.
pub proof fn lemma_filter_twice(
    s: Seq<Trigger>,
    first: spec_fn(Trigger) -> bool,
    second: spec_fn(Trigger) -> bool,
    both: spec_fn(Trigger) -> bool,
)
    requires
        forall|x: Trigger| s.contains(x) ==> both(x) == (first(x) && second(x)),
    ensures
        s.filter(first).filter(second) == s.filter(both),
    decreases s.len(),
{
    reveal(Seq::filter);
    if s.len() > 0 {
        let front = s.drop_last();
        let last = s.last();
        assert(s.contains(last)) by {
            assert(s[s.len() - 1] == last);
        }
        assert forall|x: Trigger| front.contains(x) implies both(x) == (first(x) && second(x)) by {
            let k = choose|k: int| 0 <= k < front.len() && front[k] == x;
            assert(s[k] == x);
            assert(s.contains(x));
        }
        lemma_filter_twice(front, first, second, both);
        if first(last) {
            front.filter(first).lemma_filter_push(last, second);
        }
    }
}

/// Two filters that agree on the conditions of a sequence keep the same.
pub proof fn lemma_filter_same(
    s: Seq<Trigger>,
    first: spec_fn(Trigger) -> bool,
    second: spec_fn(Trigger) -> bool,
)
    requires
        forall|x: Trigger| s.contains(x) ==> first(x) == second(x),
    ensures
        s.filter(first) == s.filter(second),
    decreases s.len(),
{
    reveal(Seq::filter);
    if s.len() > 0 {
        let front = s.drop_last();
        assert(s.contains(s.last())) by {
            assert(s[s.len() - 1] == s.last());
        }
        assert forall|x: Trigger| front.contains(x) implies first(x) == second(x) by {
            let k = choose|k: int| 0 <= k < front.len() && front[k] == x;
            assert(s[k] == x);
            assert(s.contains(x));
        }
        lemma_filter_same(front, first, second);
    }
}

/// A filter that keeps every condition of a sequence changes nothing.
pub proof fn lemma_filter_all(s: Seq<Trigger>, keep: spec_fn(Trigger) -> bool)
    requires
        forall|x: Trigger| s.contains(x) ==> keep(x),
    ensures
        s.filter(keep) == s,
    decreases s.len(),
{
    reveal(Seq::filter);
    if s.len() > 0 {
        let front = s.drop_last();
        assert(s.contains(s.last())) by {
            assert(s[s.len() - 1] == s.last());
        }
        assert forall|x: Trigger| front.contains(x) implies keep(x) by {
            let k = choose|k: int| 0 <= k < front.len() && front[k] == x;
            assert(s[k] == x);
            assert(s.contains(x));
        }
        lemma_filter_all(front, keep);
        assert(front.push(s.last()) =~= s);
    } else {
        assert(s.filter(keep) =~= s);
    }
}

} // verus!
