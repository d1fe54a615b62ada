//! The bounded top-N selection container and its mathematical model.
//!
//! The model keeps the retained elements as a sequence that ascends under
//! the active strategy, so the worst retained element always stands first.

use vstd::prelude::*;
use core::cmp::Ordering;
use crate::order::Comparator;

verus! {

/// The sequence ascends under the strategy: worst element first.
pub open spec fn sorted_by<T, C: Comparator<T>>(c: C, s: Seq<T>) -> bool {
    forall|i: int, j: int| 0 <= i <= j < s.len() ==> #[trigger] c.le(s[i], s[j])
}

/// How many positions of `s` hold the value `x`.
pub open spec fn count_of<T>(s: Seq<T>, x: T) -> nat
    decreases s.len(),
{
    if s.len() == 0 {
        0
    } else {
        count_of(s.drop_first(), x) + (if s[0] == x { 1nat } else { 0nat })
    }
}

/// Where a new element lands in an ascending sequence: before the first
/// position whose element ranks at or above it.
pub open spec fn spec_insert<T, C: Comparator<T>>(c: C, s: Seq<T>, x: T) -> Seq<T>
    decreases s.len(),
{
    if s.len() == 0 {
        seq![x]
    } else if c.le(x, s[0]) {
        seq![x] + s
    } else {
        seq![s[0]] + spec_insert(c, s.drop_first(), x)
    }
}

/// One insertion into a container of capacity `cap` whose retained
/// elements are `s`, ascending: below capacity the element is simply
/// placed; at capacity the worst element is displaced exactly when the
/// newcomer ranks strictly above it, and otherwise nothing changes.
pub open spec fn spec_push<T, C: Comparator<T>>(c: C, cap: nat, s: Seq<T>, x: T) -> Seq<T> {
    if s.len() < cap {
        spec_insert(c, s, x)
    } else if !c.le(x, s[0]) {
        spec_insert(c, s.drop_first(), x)
    } else {
        s
    }
}

/// Insertion of every element of `items`, in sequence order.
pub open spec fn spec_push_all<T, C: Comparator<T>>(
    c: C,
    cap: nat,
    s: Seq<T>,
    items: Seq<T>,
) -> Seq<T>
    decreases items.len(),
{
    if items.len() == 0 {
        s
    } else {
        spec_push_all(c, cap, spec_push(c, cap, s, items[0]), items.drop_first())
    }
}

/// Inserting an element grows the sequence by exactly one position.
pub proof fn lemma_insert_len<T, C: Comparator<T>>(c: C, s: Seq<T>, x: T)
    ensures
        spec_insert(c, s, x).len() == s.len() + 1,
    decreases s.len(),
{
    if s.len() == 0 {
    } else if c.le(x, s[0]) {
    } else {
        lemma_insert_len(c, s.drop_first(), x);
    }
}

/// Inserting `x` raises the count of `x` by one and keeps every other count.
pub proof fn lemma_insert_count<T, C: Comparator<T>>(c: C, s: Seq<T>, x: T, y: T)
    ensures
        count_of(spec_insert(c, s, x), y) == count_of(s, y) + (if y == x {
            1nat
        } else {
            0nat
        }),
    decreases s.len(),
{
    if s.len() == 0 {
        assert(seq![x].drop_first() =~= Seq::<T>::empty());
        assert(count_of(Seq::<T>::empty(), y) == 0);
    } else if c.le(x, s[0]) {
        assert((seq![x] + s).drop_first() =~= s);
        assert((seq![x] + s)[0] == x);
    } else {
        let rest = spec_insert(c, s.drop_first(), x);
        assert((seq![s[0]] + rest).drop_first() =~= rest);
        assert((seq![s[0]] + rest)[0] == s[0]);
        lemma_insert_count(c, s.drop_first(), x, y);
    }
}

/// Appending an element raises its count by one and keeps every other count.
pub proof fn lemma_count_push<T>(s: Seq<T>, a: T, y: T)
    ensures
        count_of(s.push(a), y) == count_of(s, y) + (if y == a {
            1nat
        } else {
            0nat
        }),
    decreases s.len(),
{
    if s.len() == 0 {
        assert(s.push(a).drop_first() =~= Seq::<T>::empty());
        assert(count_of(Seq::<T>::empty(), y) == 0);
        assert(s.push(a)[0] == a);
    } else {
        assert(s.push(a).drop_first() =~= s.drop_first().push(a));
        assert(s.push(a)[0] == s[0]);
        lemma_count_push(s.drop_first(), a, y);
    }
}

/// The value at any position occurs at least once.
pub proof fn lemma_count_at_index<T>(s: Seq<T>, i: int)
    requires
        0 <= i < s.len(),
    ensures
        count_of(s, s[i]) >= 1,
    decreases i,
{
    if i == 0 {
    } else {
        lemma_count_at_index(s.drop_first(), i - 1);
        assert(s.drop_first()[i - 1] == s[i]);
    }
}

/// A value with a positive count stands at some position.
pub proof fn lemma_count_pos_contains<T>(s: Seq<T>, y: T)
    requires
        count_of(s, y) >= 1,
    ensures
        s.contains(y),
    decreases s.len(),
{
    if s[0] == y {
        assert(s.contains(y));
    } else {
        lemma_count_pos_contains(s.drop_first(), y);
        let i = choose|i: int| 0 <= i < s.drop_first().len() && s.drop_first()[i] == y;
        assert(s[i + 1] == y);
        assert(s.contains(y));
    }
}

/// Reversing a sequence keeps every count.
pub proof fn lemma_count_reverse<T>(s: Seq<T>, y: T)
    ensures
        count_of(s.reverse(), y) == count_of(s, y),
    decreases s.len(),
{
    if s.len() == 0 {
        assert(s.reverse() =~= s);
    } else {
        assert(s.reverse() =~= s.drop_first().reverse().push(s[0]));
        lemma_count_push(s.drop_first().reverse(), s[0], y);
        lemma_count_reverse(s.drop_first(), y);
    }
}

/// An ascending sequence stays ascending when its first element goes.
pub proof fn lemma_sorted_drop_first<T, C: Comparator<T>>(c: C, s: Seq<T>)
    requires
        s.len() > 0,
        sorted_by(c, s),
    ensures
        sorted_by(c, s.drop_first()),
{
    assert forall|i: int, j: int|
        0 <= i <= j < s.drop_first().len() implies #[trigger] c.le(
        s.drop_first()[i],
        s.drop_first()[j],
    ) by {
        assert(s.drop_first()[i] == s[i + 1]);
        assert(s.drop_first()[j] == s[j + 1]);
        assert(c.le(s[i + 1], s[j + 1]));
    }
}

/// Insertion into an ascending sequence yields an ascending sequence.
pub proof fn lemma_insert_sorted<T, C: Comparator<T>>(c: C, s: Seq<T>, x: T)
    requires
        sorted_by(c, s),
    ensures
        sorted_by(c, spec_insert(c, s, x)),
    decreases s.len(),
{
    let r = spec_insert(c, s, x);
    if s.len() == 0 {
        assert forall|i: int, j: int| 0 <= i <= j < r.len() implies #[trigger] c.le(
            r[i],
            r[j],
        ) by {
            c.le_total(x, x);
        }
    } else if c.le(x, s[0]) {
        assert forall|i: int, j: int| 0 <= i <= j < r.len() implies #[trigger] c.le(
            r[i],
            r[j],
        ) by {
            if i == 0 && j == 0 {
                c.le_total(x, x);
            } else if i == 0 {
                assert(r[j] == s[j - 1]);
                assert(c.le(s[0], s[j - 1]));
                c.le_transitive(x, s[0], s[j - 1]);
            } else {
                assert(r[i] == s[i - 1]);
                assert(r[j] == s[j - 1]);
                assert(c.le(s[i - 1], s[j - 1]));
            }
        }
    } else {
        lemma_sorted_drop_first(c, s);
        lemma_insert_sorted(c, s.drop_first(), x);
        let rest = spec_insert(c, s.drop_first(), x);
        lemma_insert_len(c, s.drop_first(), x);
        c.le_total(x, s[0]);
        assert forall|i: int, j: int| 0 <= i <= j < r.len() implies #[trigger] c.le(
            r[i],
            r[j],
        ) by {
            if i == 0 && j == 0 {
                c.le_total(s[0], s[0]);
            } else if i == 0 {
                assert(r[j] == rest[j - 1]);
                lemma_count_at_index(rest, j - 1);
                lemma_insert_count(c, s.drop_first(), x, rest[j - 1]);
                if rest[j - 1] == x {
                    assert(c.le(s[0], x));
                } else {
                    assert(count_of(s.drop_first(), rest[j - 1]) >= 1);
                    lemma_count_pos_contains(s.drop_first(), rest[j - 1]);
                    let t = choose|t: int|
                        0 <= t < s.drop_first().len() && s.drop_first()[t] == rest[j - 1];
                    assert(s[t + 1] == rest[j - 1]);
                    assert(c.le(s[0], s[t + 1]));
                }
            } else {
                assert(r[i] == rest[i - 1]);
                assert(r[j] == rest[j - 1]);
                assert(c.le(rest[i - 1], rest[j - 1]));
            }
        }
    }
}

/// Recursive insertion agrees with positional insertion at the first
/// position whose element ranks at or above the newcomer.
pub proof fn lemma_insert_at<T, C: Comparator<T>>(c: C, s: Seq<T>, x: T, i: int)
    requires
        0 <= i <= s.len(),
        forall|j: int| 0 <= j < i ==> !c.le(x, #[trigger] s[j]),
        i < s.len() ==> c.le(x, s[i]),
    ensures
        spec_insert(c, s, x) == s.insert(i, x),
    decreases s.len(),
{
    if s.len() == 0 {
        assert(spec_insert(c, s, x) =~= s.insert(0, x));
    } else if i == 0 {
        assert(c.le(x, s[0]));
        assert(seq![x] + s =~= s.insert(0, x));
    } else {
        assert(!c.le(x, s[0]));
        assert forall|j: int| 0 <= j < i - 1 implies !c.le(x, #[trigger] s.drop_first()[j]) by {
            assert(s.drop_first()[j] == s[j + 1]);
        }
        assert(i - 1 < s.drop_first().len() ==> c.le(x, s.drop_first()[i - 1]));
        lemma_insert_at(c, s.drop_first(), x, i - 1);
        assert(seq![s[0]] + s.drop_first().insert(i - 1, x) =~= s.insert(i, x));
    }
}

/// One push keeps the length bound and the ascending order: the length
/// grows by one below capacity and never passes it.
pub proof fn lemma_push_wf<T, C: Comparator<T>>(c: C, cap: nat, s: Seq<T>, x: T)
    requires
        cap >= 1,
        s.len() <= cap,
        sorted_by(c, s),
    ensures
        spec_push(c, cap, s, x).len() == if s.len() < cap {
            s.len() + 1
        } else {
            s.len()
        },
        spec_push(c, cap, s, x).len() <= cap,
        sorted_by(c, spec_push(c, cap, s, x)),
{
    if s.len() < cap {
        lemma_insert_len(c, s, x);
        lemma_insert_sorted(c, s, x);
    } else if !c.le(x, s[0]) {
        lemma_sorted_drop_first(c, s);
        lemma_insert_len(c, s.drop_first(), x);
        lemma_insert_sorted(c, s.drop_first(), x);
    }
}

/// Keeps the `capacity` best elements pushed into it, under the configured
/// comparison strategy, and silently discards the rest.
pub struct NBest<T, C> where C: Comparator<T> {
    items: Vec<T>,
    cap: usize,
    cmp_func: C,
}

impl<T, C: Comparator<T>> View for NBest<T, C> {
    type V = Seq<T>;

    closed spec fn view(&self) -> Seq<T> {
        self.items@
    }
}

impl<T, C: Comparator<T>> NBest<T, C> {
    /// The fixed capacity given at construction.
    pub closed spec fn spec_capacity(&self) -> usize {
        self.cap
    }

    /// The comparison strategy given at construction.
    pub closed spec fn spec_cmp(&self) -> C {
        self.cmp_func
    }

    /// Well-formed: positive capacity, no more elements than the capacity,
    /// and storage ascending under the strategy, so the worst retained
    /// element always stands first.
    pub open spec fn wf(&self) -> bool {
        &&& self.spec_capacity() >= 1
        &&& self@.len() <= self.spec_capacity()
        &&& sorted_by(self.spec_cmp(), self@)
    }

    /// Returns an empty collection of capacity `n`, using the supplied
    /// strategy to perform comparisons.
    pub fn with_cmp_fn(n: usize, func: C) -> (r: Self)
        requires
            n >= 1,
        ensures
            r.wf(),
            r@ == Seq::<T>::empty(),
            r.spec_capacity() == n,
            r.spec_cmp() == func,
    {
        NBest { items: Vec::new(), cap: n, cmp_func: func }
    }

    /// Returns a collection of capacity `n` with the supplied strategy,
    /// built by pushing every element of `items` in order.
    pub fn with_cmp_fn_and_iter(n: usize, func: C, items: Vec<T>) -> (r: Self)
        requires
            n >= 1,
        ensures
            r.wf(),
            r.spec_capacity() == n,
            r.spec_cmp() == func,
            r@ == spec_push_all(func, n as nat, Seq::<T>::empty(), items@),
    {
        let mut r = Self::with_cmp_fn(n, func);
        r.extend(items);
        r
    }

    /// Adds a new element, discarding the worst retained element when the
    /// collection is at capacity and the newcomer ranks strictly above it,
    /// and discarding the newcomer otherwise.
    pub fn push(&mut self, item: T)
        requires
            old(self).wf(),
        ensures
            final(self).wf(),
            final(self).spec_capacity() == old(self).spec_capacity(),
            final(self).spec_cmp() == old(self).spec_cmp(),
            final(self)@ == spec_push(
                old(self).spec_cmp(),
                old(self).spec_capacity() as nat,
                old(self)@,
                item,
            ),
    {
        let ghost c = self.cmp_func;
        let ghost s0 = self.items@;
        if self.items.len() < self.cap {
            let i = seek_index(&self.cmp_func, &self.items, &item);
            proof {
                lemma_insert_at(c, s0, item, i as int);
            }
            self.items.insert(i, item);
        } else {
            let ord = self.cmp_func.compare(&item, &self.items[0]);
            match ord {
                Ordering::Greater => {
                    let _worst = self.items.remove(0);
                    proof {
                        assert(self.items@ =~= s0.drop_first());
                    }
                    let i = seek_index(&self.cmp_func, &self.items, &item);
                    proof {
                        lemma_insert_at(c, s0.drop_first(), item, i as int);
                    }
                    self.items.insert(i, item);
                },
                _ => {},
            }
        }
        proof {
            lemma_push_wf(c, self.cap as nat, s0, item);
        }
    }

    /// Removes and returns the worst-ranked retained element, or `None`
    /// when the collection holds no elements.
    pub fn pop(&mut self) -> (r: Option<T>)
        requires
            old(self).wf(),
        ensures
            final(self).wf(),
            final(self).spec_capacity() == old(self).spec_capacity(),
            final(self).spec_cmp() == old(self).spec_cmp(),
            old(self)@.len() == 0 ==> r is None && final(self)@ == old(self)@,
            old(self)@.len() > 0 ==> r == Some(old(self)@[0]) && final(self)@ == old(
                self,
            )@.drop_first(),
            r is Some ==> forall|i: int|
                0 <= i < old(self)@.len() ==> old(self).spec_cmp().le(
                    r.unwrap(),
                    #[trigger] old(self)@[i],
                ),
    {
        if self.items.len() == 0 {
            None
        } else {
            let ghost c = self.cmp_func;
            let ghost s0 = self.items@;
            let worst = self.items.remove(0);
            proof {
                assert(self.items@ =~= s0.drop_first());
                lemma_sorted_drop_first(c, s0);
            }
            Some(worst)
        }
    }

    /// The number of elements currently retained; never above the capacity.
    pub fn len(&self) -> (r: usize)
        ensures
            r == self@.len(),
    {
        self.items.len()
    }

    /// The maximum number of elements the collection will retain.
    pub fn capacity(&self) -> (r: usize)
        ensures
            r == self.spec_capacity(),
    {
        self.cap
    }

    /// The retained elements, in an internal order that callers must not
    /// rely on. Does not mutate the collection.
    pub fn iter(&self) -> (r: &Vec<T>)
        ensures
            r@ == self@,
    {
        &self.items
    }

    /// Empties the collection and returns every retained element exactly
    /// once, in an internal order that callers must not rely on.
    pub fn drain(&mut self) -> (r: Vec<T>)
        requires
            old(self).wf(),
        ensures
            final(self).wf(),
            final(self).spec_capacity() == old(self).spec_capacity(),
            final(self).spec_cmp() == old(self).spec_cmp(),
            final(self)@.len() == 0,
            r@ == old(self)@,
    {
        let mut out: Vec<T> = Vec::new();
        core::mem::swap(&mut out, &mut self.items);
        out
    }

    /// Consumes the collection and returns every retained element in a
    /// `Vec` sorted best-first: the strategy's forward sense decides the
    /// positions, so the top-ranked element comes first.
    pub fn into_sorted_vec(self) -> (r: Vec<T>)
        requires
            self.wf(),
        ensures
            r@ == self@.reverse(),
            r@.len() == self@.len(),
            forall|x: T| #[trigger] count_of(r@, x) == count_of(self@, x),
            forall|i: int, j: int|
                0 <= i <= j < r@.len() ==> #[trigger] self.spec_cmp().le(r@[j], r@[i]),
    {
        let ghost c = self.cmp_func;
        let ghost s = self.items@;
        let NBest { items, cap: _, cmp_func: _ } = self;
        let mut items = items;
        let mut out: Vec<T> = Vec::new();
        while items.len() > 0
            invariant
                items@ == s.subrange(0, items@.len() as int),
                out@ == s.subrange(items@.len() as int, s.len() as int).reverse(),
                items@.len() <= s.len(),
            decreases items@.len(),
        {
            let ghost k = items@.len() as int;
            let x = items.pop().unwrap();
            out.push(x);
            proof {
                assert(items@ =~= s.subrange(0, k - 1));
                assert(s.subrange(k - 1, s.len() as int).reverse() =~= s.subrange(
                    k,
                    s.len() as int,
                ).reverse().push(s[k - 1]));
            }
        }
        proof {
            assert(s.subrange(0, s.len() as int) =~= s);
            assert(out@ =~= s.reverse());
            assert forall|x: T| #[trigger] count_of(out@, x) == count_of(s, x) by {
                lemma_count_reverse(s, x);
            }
            assert forall|i: int, j: int|
                0 <= i <= j < out@.len() implies #[trigger] c.le(out@[j], out@[i]) by {
                assert(out@[j] == s[s.len() - 1 - j]);
                assert(out@[i] == s[s.len() - 1 - i]);
                assert(c.le(s[s.len() - 1 - j], s[s.len() - 1 - i]));
            }
        }
        out
    }

    /// Feeds each element of `items`, in sequence order, through the
    /// standard `push` path, with all its eviction and discard behaviour.
    pub fn extend(&mut self, items: Vec<T>)
        requires
            old(self).wf(),
        ensures
            final(self).wf(),
            final(self).spec_capacity() == old(self).spec_capacity(),
            final(self).spec_cmp() == old(self).spec_cmp(),
            final(self)@ == spec_push_all(
                old(self).spec_cmp(),
                old(self).spec_capacity() as nat,
                old(self)@,
                items@,
            ),
        decreases items@.len(),
    {
        let mut items = items;
        if items.len() > 0 {
            let x = items.remove(0);
            self.push(x);
            self.extend(items);
        }
    }
}

impl<T> NBest<T, crate::order::Natural> where crate::order::Natural: Comparator<T> {
    /// Returns an empty collection of capacity `n` for element types with
    /// a natural order.
    pub fn new(n: usize) -> (r: Self)
        requires
            n >= 1,
        ensures
            r.wf(),
            r@ == Seq::<T>::empty(),
            r.spec_capacity() == n,
            r.spec_cmp() == crate::order::Natural,
    {
        Self::with_cmp_fn(n, crate::order::Natural)
    }

    /// Returns a collection of capacity `n` under the natural order, built
    /// by pushing every element of `items` in order.
    pub fn with_iter(n: usize, items: Vec<T>) -> (r: Self)
        requires
            n >= 1,
        ensures
            r.wf(),
            r.spec_capacity() == n,
            r.spec_cmp() == crate::order::Natural,
            r@ == spec_push_all(
                crate::order::Natural,
                n as nat,
                Seq::<T>::empty(),
                items@,
            ),
    {
        Self::with_cmp_fn_and_iter(n, crate::order::Natural, items)
    }
}

/// The position before the first element of `v` that ranks at or above
/// `item`; the length of `v` when no element does.
fn seek_index<T, C: Comparator<T>>(c: &C, v: &Vec<T>, item: &T) -> (i: usize)
    ensures
        i <= v@.len(),
        forall|j: int| 0 <= j < i ==> !c.le(*item, #[trigger] v@[j]),
        i < v@.len() ==> c.le(*item, v@[i as int]),
{
    let mut i: usize = 0;
    loop
        invariant
            i <= v@.len(),
            forall|j: int| 0 <= j < i ==> !c.le(*item, #[trigger] v@[j]),
        ensures
            i <= v@.len(),
            forall|j: int| 0 <= j < i ==> !c.le(*item, #[trigger] v@[j]),
            i < v@.len() ==> c.le(*item, v@[i as int]),
        decreases v@.len() - i,
    {
        if i >= v.len() {
            break;
        }
        let ord = c.compare(item, &v[i]);
        match ord {
            Ordering::Greater => {
                i = i + 1;
            },
            _ => {
                break;
            },
        }
    }
    i
}

} // verus!
