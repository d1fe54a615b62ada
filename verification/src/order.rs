//! Comparison strategies: the pluggable total orders that decide which
//! elements a selection container ranks as "best".

use vstd::prelude::*;
use core::cmp::Ordering;

verus! {

/// A total-order comparison strategy over values of type `T`.
///
/// `le` is the ordering as a mathematical relation; `compare` is its
/// executable three-way form. Implementors must show that `le` is total
/// and transitive, so that one eviction algorithm serves every strategy.
pub trait Comparator<T>: Sized {
    /// The ordering as a relation: `a` ranks no higher than `b`.
    spec fn le(self, a: T, b: T) -> bool;

    /// Any two values are related one way or the other.
    proof fn le_total(&self, a: T, b: T)
        ensures
            self.le(a, b) || self.le(b, a),
    ;

    /// The ordering is transitive.
    proof fn le_transitive(&self, a: T, b: T, c: T)
        requires
            self.le(a, b),
            self.le(b, c),
        ensures
            self.le(a, c),
    ;

    /// Executable three-way comparison, consistent with `le`.
    fn compare(&self, a: &T, b: &T) -> (r: Ordering)
        ensures
            r == Ordering::Less <==> self.le(*a, *b) && !self.le(*b, *a),
            r == Ordering::Equal <==> self.le(*a, *b) && self.le(*b, *a),
            r == Ordering::Greater <==> self.le(*b, *a) && !self.le(*a, *b),
    ;
}

/// The natural ascending order of the element type itself.
#[derive(Clone, Copy)]
pub struct Natural;

impl Comparator<i64> for Natural {
    open spec fn le(self, a: i64, b: i64) -> bool {
        a <= b
    }

    proof fn le_total(&self, a: i64, b: i64) {
    }

    proof fn le_transitive(&self, a: i64, b: i64, c: i64) {
    }

    fn compare(&self, a: &i64, b: &i64) -> (r: Ordering) {
        if *a < *b {
            Ordering::Less
        } else if *a == *b {
            Ordering::Equal
        } else {
            Ordering::Greater
        }
    }
}

impl Comparator<i32> for Natural {
    open spec fn le(self, a: i32, b: i32) -> bool {
        a <= b
    }

    proof fn le_total(&self, a: i32, b: i32) {
    }

    proof fn le_transitive(&self, a: i32, b: i32, c: i32) {
    }

    fn compare(&self, a: &i32, b: &i32) -> (r: Ordering) {
        if *a < *b {
            Ordering::Less
        } else if *a == *b {
            Ordering::Equal
        } else {
            Ordering::Greater
        }
    }
}

impl Comparator<usize> for Natural {
    open spec fn le(self, a: usize, b: usize) -> bool {
        a <= b
    }

    proof fn le_total(&self, a: usize, b: usize) {
    }

    proof fn le_transitive(&self, a: usize, b: usize, c: usize) {
    }

    fn compare(&self, a: &usize, b: &usize) -> (r: Ordering) {
        if *a < *b {
            Ordering::Less
        } else if *a == *b {
            Ordering::Equal
        } else {
            Ordering::Greater
        }
    }
}

impl Comparator<u64> for Natural {
    open spec fn le(self, a: u64, b: u64) -> bool {
        a <= b
    }

    proof fn le_total(&self, a: u64, b: u64) {
    }

    proof fn le_transitive(&self, a: u64, b: u64, c: u64) {
    }

    fn compare(&self, a: &u64, b: &u64) -> (r: Ordering) {
        if *a < *b {
            Ordering::Less
        } else if *a == *b {
            Ordering::Equal
        } else {
            Ordering::Greater
        }
    }
}

/// Inverts another strategy: what it ranked highest now ranks lowest.
#[derive(Clone, Copy)]
pub struct Reversed<C> {
    pub inner: C,
}

impl<T, C: Comparator<T>> Comparator<T> for Reversed<C> {
    open spec fn le(self, a: T, b: T) -> bool {
        self.inner.le(b, a)
    }

    proof fn le_total(&self, a: T, b: T) {
        self.inner.le_total(b, a);
    }

    proof fn le_transitive(&self, a: T, b: T, c: T) {
        self.inner.le_transitive(c, b, a);
    }

    fn compare(&self, a: &T, b: &T) -> (r: Ordering) {
        self.inner.compare(b, a)
    }
}

} // verus!
