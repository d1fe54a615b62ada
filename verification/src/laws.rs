//! The container's governing properties, stated over the mathematical
//! model in `selector` and proved once for every comparison strategy.

use vstd::prelude::*;
use crate::order::Comparator;
use crate::selector::count_of;
use crate::selector::lemma_count_at_index;
use crate::selector::lemma_count_pos_contains;
use crate::selector::lemma_count_push;
use crate::selector::lemma_insert_count;
use crate::selector::lemma_insert_len;
use crate::selector::lemma_push_wf;
use crate::selector::sorted_by;
use crate::selector::spec_insert;
use crate::selector::spec_push;
use crate::selector::spec_push_all;

verus! {

/// `kept` holds, count for count, the `cap` best elements of `seen`:
/// it is drawn from `seen`, it is as large as `seen` allows up to `cap`,
/// every element discarded from `seen` ranks at or below every retained
/// element, and below capacity nothing is discarded at all.
pub open spec fn is_best_of<T, C: Comparator<T>>(
    c: C,
    cap: nat,
    seen: Seq<T>,
    kept: Seq<T>,
) -> bool {
    &&& kept.len() == if seen.len() <= cap {
        seen.len()
    } else {
        cap
    }
    &&& forall|x: T| #[trigger] count_of(kept, x) <= count_of(seen, x)
    &&& forall|x: T, i: int|
        #![trigger count_of(seen, x), kept[i]]
        0 <= i < kept.len() && count_of(kept, x) < count_of(seen, x) ==> c.le(x, kept[i])
    &&& seen.len() <= cap ==> forall|x: T| #[trigger] count_of(kept, x) == count_of(seen, x)
}

/// One push preserves "kept is the best of seen", with the newcomer now
/// counted among the seen.
proof fn lemma_best_step<T, C: Comparator<T>>(c: C, cap: nat, seen: Seq<T>, kept: Seq<T>, x: T)
    requires
        cap >= 1,
        sorted_by(c, kept),
        is_best_of(c, cap, seen, kept),
    ensures
        sorted_by(c, spec_push(c, cap, kept, x)),
        is_best_of(c, cap, seen.push(x), spec_push(c, cap, kept, x)),
{
    let kept2 = spec_push(c, cap, kept, x);
    let seen2 = seen.push(x);
    assert(kept.len() <= cap);
    lemma_push_wf(c, cap, kept, x);
    assert forall|y: T| #[trigger] count_of(seen2, y) == count_of(seen, y) + (if y == x {
        1nat
    } else {
        0nat
    }) by {
        lemma_count_push(seen, x, y);
    }
    if kept.len() < cap {
        assert(seen.len() == kept.len());
        assert forall|y: T| #[trigger] count_of(kept2, y) == count_of(kept, y) + (if y == x {
            1nat
        } else {
            0nat
        }) by {
            lemma_insert_count(c, kept, x, y);
        }
        assert forall|y: T, i: int|
            #![trigger count_of(seen2, y), kept2[i]]
            0 <= i < kept2.len() && count_of(kept2, y) < count_of(seen2, y) implies c.le(
            y,
            kept2[i],
        ) by {
            assert(count_of(kept, y) == count_of(seen, y));
            assert(false);
        }
    } else {
        assert(kept.len() == cap);
        assert(seen2.len() > cap);
        if !c.le(x, kept[0]) {
            let dropped = kept.drop_first();
            c.le_total(x, kept[0]);
            assert(c.le(kept[0], x));
            assert forall|y: T| #[trigger] count_of(kept2, y) == count_of(dropped, y) + (if y == x {
                1nat
            } else {
                0nat
            }) by {
                lemma_insert_count(c, dropped, x, y);
            }
            assert forall|y: T| #[trigger] count_of(kept, y) == count_of(dropped, y) + (if kept[0]
                == y {
                1nat
            } else {
                0nat
            }) by {
                assert(kept.len() > 0);
            }
            assert forall|y: T, i: int|
                #![trigger count_of(seen2, y), kept2[i]]
                0 <= i < kept2.len() && count_of(kept2, y) < count_of(seen2, y) implies c.le(
                y,
                kept2[i],
            ) by {
                lemma_count_at_index(kept2, i);
                lemma_insert_count(c, dropped, x, kept2[i]);
                if count_of(kept, y) < count_of(seen, y) {
                    if kept2[i] == x {
                        assert(c.le(y, kept[0]));
                        c.le_transitive(y, kept[0], x);
                    } else {
                        assert(count_of(dropped, kept2[i]) >= 1);
                        lemma_count_pos_contains(dropped, kept2[i]);
                        let t = choose|t: int|
                            0 <= t < dropped.len() && dropped[t] == kept2[i];
                        assert(kept[t + 1] == kept2[i]);
                        assert(c.le(y, kept[t + 1]));
                    }
                } else {
                    assert(count_of(kept, y) == count_of(seen, y));
                    assert(kept[0] == y);
                    if kept2[i] == x {
                        assert(c.le(y, x));
                    } else {
                        assert(count_of(dropped, kept2[i]) >= 1);
                        lemma_count_pos_contains(dropped, kept2[i]);
                        let t = choose|t: int|
                            0 <= t < dropped.len() && dropped[t] == kept2[i];
                        assert(kept[t + 1] == kept2[i]);
                        assert(c.le(kept[0], kept[t + 1]));
                    }
                }
            }
        } else {
            assert(kept2 == kept);
            assert forall|y: T, i: int|
                #![trigger count_of(seen2, y), kept2[i]]
                0 <= i < kept2.len() && count_of(kept2, y) < count_of(seen2, y) implies c.le(
                y,
                kept2[i],
            ) by {
                if count_of(kept, y) < count_of(seen, y) {
                    assert(c.le(y, kept[i]));
                } else {
                    assert(y == x);
                    assert(c.le(kept[0], kept[i]));
                    c.le_transitive(x, kept[0], kept[i]);
                }
            }
        }
    }
}

/// Pushing a whole sequence preserves "kept is the best of seen".
proof fn lemma_best_all<T, C: Comparator<T>>(
    c: C,
    cap: nat,
    seen: Seq<T>,
    kept: Seq<T>,
    items: Seq<T>,
)
    requires
        cap >= 1,
        sorted_by(c, kept),
        is_best_of(c, cap, seen, kept),
    ensures
        sorted_by(c, spec_push_all(c, cap, kept, items)),
        is_best_of(c, cap, seen + items, spec_push_all(c, cap, kept, items)),
    decreases items.len(),
{
    if items.len() == 0 {
        assert(seen + items =~= seen);
    } else {
        lemma_best_step(c, cap, seen, kept, items[0]);
        lemma_best_all(
            c,
            cap,
            seen.push(items[0]),
            spec_push(c, cap, kept, items[0]),
            items.drop_first(),
        );
        assert(seen.push(items[0]) + items.drop_first() =~= seen + items);
    }
}

/// Top-K correctness: after pushing every element of `items` into a fresh
/// container of capacity `cap`, the retained sequence holds exactly the
/// `cap` best elements of `items` (all of them, when fewer were pushed),
/// ascending under the strategy. Ties may resolve either way, which the
/// count-for-count statement of `is_best_of` leaves open.
pub proof fn lemma_top_k<T, C: Comparator<T>>(c: C, cap: nat, items: Seq<T>)
    requires
        cap >= 1,
    ensures
        sorted_by(c, spec_push_all(c, cap, Seq::<T>::empty(), items)),
        is_best_of(c, cap, items, spec_push_all(c, cap, Seq::<T>::empty(), items)),
{
    let e = Seq::<T>::empty();
    assert forall|y: T| #[trigger] count_of(e, y) == 0 by {}
    lemma_best_all(c, cap, e, e, items);
    assert(e + items =~= items);
}

/// Capacity invariant: whatever sequence of pushes a container of
/// capacity `cap` sees, it never retains more than `cap` elements.
pub proof fn lemma_capacity_invariant<T, C: Comparator<T>>(
    c: C,
    cap: nat,
    s: Seq<T>,
    items: Seq<T>,
)
    requires
        cap >= 1,
        s.len() <= cap,
    ensures
        spec_push_all(c, cap, s, items).len() <= cap,
    decreases items.len(),
{
    if items.len() > 0 {
        let s2 = spec_push(c, cap, s, items[0]);
        if s.len() < cap {
            lemma_insert_len(c, s, items[0]);
        } else if !c.le(items[0], s[0]) {
            lemma_insert_len(c, s.drop_first(), items[0]);
        }
        assert(s2.len() <= cap);
        lemma_capacity_invariant(c, cap, s2, items.drop_first());
    }
}

/// Idempotent ordering: the retained sequence after a series of pushes,
/// and with it the best-first sorted output, is a function of the input
/// sequence alone. The contracts of `push`, `extend` and
/// `into_sorted_vec` equate their results with `spec_push_all` and its
/// reversal, so two containers fed the same input in the same order sort
/// to the same output; only the order of `iter` and `drain` carries no
/// such promise.
pub proof fn lemma_idempotent_ordering<T, C: Comparator<T>>(
    c: C,
    cap: nat,
    items: Seq<T>,
    v1: Seq<T>,
    v2: Seq<T>,
)
    requires
        v1 == spec_push_all(c, cap, Seq::<T>::empty(), items),
        v2 == spec_push_all(c, cap, Seq::<T>::empty(), items),
    ensures
        v1 == v2,
        v1.reverse() == v2.reverse(),
{
}

/// Discard silence: pushing an element that ranks strictly below every
/// retained element of a full container changes nothing.
pub proof fn lemma_discard_silence<T, C: Comparator<T>>(c: C, cap: nat, s: Seq<T>, x: T)
    requires
        cap >= 1,
        s.len() == cap,
        forall|i: int| 0 <= i < s.len() ==> !c.le(#[trigger] s[i], x),
    ensures
        spec_push(c, cap, s, x) == s,
{
    assert(!c.le(s[0], x));
    c.le_total(x, s[0]);
}

/// Two strategies that agree as relations insert identically.
proof fn lemma_insert_congruent<T, C1: Comparator<T>, C2: Comparator<T>>(
    c1: C1,
    c2: C2,
    s: Seq<T>,
    x: T,
)
    requires
        forall|a: T, b: T| #![trigger c1.le(a, b)] #![trigger c2.le(a, b)] c1.le(a, b) == c2.le(
            a,
            b,
        ),
    ensures
        spec_insert(c1, s, x) == spec_insert(c2, s, x),
    decreases s.len(),
{
    if s.len() == 0 {
    } else if c1.le(x, s[0]) {
    } else {
        lemma_insert_congruent(c1, c2, s.drop_first(), x);
    }
}

/// Two strategies that agree as relations push identically.
proof fn lemma_push_all_congruent<T, C1: Comparator<T>, C2: Comparator<T>>(
    c1: C1,
    c2: C2,
    cap: nat,
    s: Seq<T>,
    items: Seq<T>,
)
    requires
        forall|a: T, b: T| #![trigger c1.le(a, b)] #![trigger c2.le(a, b)] c1.le(a, b) == c2.le(
            a,
            b,
        ),
    ensures
        spec_push_all(c1, cap, s, items) == spec_push_all(c2, cap, s, items),
    decreases items.len(),
{
    if items.len() > 0 {
        if s.len() < cap {
            lemma_insert_congruent(c1, c2, s, items[0]);
        } else if !c1.le(items[0], s[0]) {
            lemma_insert_congruent(c1, c2, s.drop_first(), items[0]);
        }
        assert(spec_push(c1, cap, s, items[0]) == spec_push(c2, cap, s, items[0]));
        lemma_push_all_congruent(c1, c2, cap, spec_push(c1, cap, s, items[0]), items.drop_first());
    }
}

/// Comparator equivalence: a container under one strategy and a container
/// under any strategy that agrees with it as a relation retain the same
/// sequence from the same input, and sort it to the same output.
pub proof fn lemma_comparator_equivalence<T, C1: Comparator<T>, C2: Comparator<T>>(
    c1: C1,
    c2: C2,
    cap: nat,
    items: Seq<T>,
)
    requires
        forall|a: T, b: T| #![trigger c1.le(a, b)] #![trigger c2.le(a, b)] c1.le(a, b) == c2.le(
            a,
            b,
        ),
    ensures
        spec_push_all(c1, cap, Seq::<T>::empty(), items) == spec_push_all(
            c2,
            cap,
            Seq::<T>::empty(),
            items,
        ),
        spec_push_all(c1, cap, Seq::<T>::empty(), items).reverse() == spec_push_all(
            c2,
            cap,
            Seq::<T>::empty(),
            items,
        ).reverse(),
{
    lemma_push_all_congruent(c1, c2, cap, Seq::<T>::empty(), items);
}

} // verus!
