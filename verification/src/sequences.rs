//! Facts about sequences that the proofs of this crate share.

use vstd::prelude::*;

verus! {

/// Filtering one item more keeps what the items before it left, and adds
/// the item where it passes.
pub proof fn lemma_filter_step<A>(items: Seq<A>, upto: int, keep: spec_fn(A) -> bool)
    requires
        0 <= upto < items.len(),
    ensures
        items.take(upto + 1).filter(keep) == if keep(items[upto]) {
            items.take(upto).filter(keep).push(items[upto])
        } else {
            items.take(upto).filter(keep)
        },
{
    reveal(Seq::filter);
    assert(items.take(upto + 1).drop_last() =~= items.take(upto));
}

/// Filtering keeps the order of what passes: what the first `upto` items
/// leave stands at the front of what all items leave, and an item that
/// passes stands right behind what the items before it left.
pub proof fn lemma_filter_prefix<A>(items: Seq<A>, keep: spec_fn(A) -> bool, upto: int)
    requires
        0 <= upto <= items.len(),
    ensures
        items.take(upto).filter(keep).len() <= items.filter(keep).len(),
        items.filter(keep).take(items.take(upto).filter(keep).len() as int) == items.take(
            upto,
        ).filter(keep),
        upto < items.len() && keep(items[upto]) ==> {
            &&& items.take(upto).filter(keep).len() < items.take(upto + 1).filter(keep).len()
            &&& items.take(upto).filter(keep).len() < items.filter(keep).len()
            &&& items.filter(keep)[items.take(upto).filter(keep).len() as int] == items[upto]
        },
    decreases items.len() - upto,
{
    reveal(Seq::filter);
    if upto == items.len() {
        assert(items.take(upto) =~= items);
        assert(items.filter(keep).take(items.filter(keep).len() as int) =~= items.filter(keep));
    } else {
        lemma_filter_prefix(items, keep, upto + 1);
        assert(items.take(upto + 1).drop_last() =~= items.take(upto));
        let shorter = items.take(upto).filter(keep);
        let longer = items.take(upto + 1).filter(keep);
        let whole = items.filter(keep);
        assert(whole.take(longer.len() as int) == longer);
        assert(whole.take(shorter.len() as int) =~= shorter) by {
            assert forall|k: int| 0 <= k < shorter.len() implies whole[k] == shorter[k] by {
                assert(whole.take(longer.len() as int)[k] == longer[k]);
            }
        }
        if keep(items[upto]) {
            assert(whole.take(longer.len() as int)[shorter.len() as int] == items[upto]);
        }
    }
}

/// What putting `x` at `place` of `s` comes to.
pub proof fn lemma_insert<A>(s: Seq<A>, place: int, x: A)
    requires
        0 <= place <= s.len(),
    ensures
        s.insert(place, x).len() == s.len() + 1,
        forall|i: int| 0 <= i < place ==> #[trigger] s.insert(place, x)[i] == s[i],
        s.insert(place, x)[place] == x,
        forall|i: int| place < i <= s.len() ==> #[trigger] s.insert(place, x)[i] == s[i - 1],
        forall|other: A| #[trigger]
            s.insert(place, x).contains(other) <==> s.contains(other) || other == x,
        s.no_duplicates() && !s.contains(x) ==> s.insert(place, x).no_duplicates(),
{
    let t = s.insert(place, x);
    assert forall|other: A| #[trigger] t.contains(other) <==> s.contains(other) || other
        == x by {
        if t.contains(other) {
            let at = choose|at: int| 0 <= at < t.len() && t[at] == other;
            if at < place {
                assert(s[at] == other);
            } else if at > place {
                assert(s[at - 1] == other);
            }
        }
        if s.contains(other) {
            let at = choose|at: int| 0 <= at < s.len() && s[at] == other;
            if at < place {
                assert(t[at] == other);
            } else {
                assert(t[at + 1] == other);
            }
        }
        if other == x {
            assert(t[place] == other);
        }
    }
    if s.no_duplicates() && !s.contains(x) {
        assert forall|i: int, j: int| 0 <= i < t.len() && 0 <= j < t.len() && i != j implies t[i]
            != t[j] by {
            let a = if i < place {
                i
            } else {
                i - 1
            };
            let b = if j < place {
                j
            } else {
                j - 1
            };
            if i != place && j != place {
                assert(t[i] == s[a]);
                assert(t[j] == s[b]);
            } else if i == place {
                assert(s.contains(s[b]));
            } else {
                assert(s.contains(s[a]));
            }
        }
    }
}

/// What the first `upto + 1` of `s` hold: what the first `upto` hold, and
/// the next.
pub proof fn lemma_take_contains<A>(s: Seq<A>, upto: int)
    requires
        0 <= upto < s.len(),
    ensures
        forall|other: A| #[trigger]
            s.take(upto + 1).contains(other) <==> s.take(upto).contains(other) || other
                == s[upto],
        s.no_duplicates() ==> !s.take(upto).contains(s[upto]),
{
    let shorter = s.take(upto);
    let longer = s.take(upto + 1);
    assert(longer =~= shorter.push(s[upto]));
    assert forall|other: A| #[trigger] longer.contains(other) <==> shorter.contains(other)
        || other == s[upto] by {
        if longer.contains(other) {
            let at = choose|at: int| 0 <= at < longer.len() && longer[at] == other;
            if at < upto {
                assert(shorter[at] == other);
            }
        }
        if shorter.contains(other) {
            let at = choose|at: int| 0 <= at < shorter.len() && shorter[at] == other;
            assert(longer[at] == other);
        }
        if other == s[upto] {
            assert(longer[upto] == other);
        }
    }
    if s.no_duplicates() && shorter.contains(s[upto]) {
        let at = choose|at: int| 0 <= at < shorter.len() && shorter[at] == s[upto];
        assert(s[at] == s[upto]);
    }
}

} // verus!
