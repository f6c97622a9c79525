//! Total orders that the eviction queue sorts by.

use vstd::prelude::*;

verus! {

/// A type whose values are totally ordered: of any two values one comes no
/// later than the other, and the relation is transitive. Two values may come
/// no later than each other without being the same.
pub trait TotalOrder: Sized {
    /// `self` comes no later than `other`.
    spec fn le(&self, other: &Self) -> bool;

    /// Of two values one comes no later than the other.
    proof fn le_total(a: &Self, b: &Self)
        ensures
            a.le(b) || b.le(a),
    ;

    /// What comes no later than a value comes no later than all that follow it.
    proof fn le_transitive(a: &Self, b: &Self, c: &Self)
        requires
            a.le(b),
            b.le(c),
        ensures
            a.le(c),
    ;

    /// Whether `self` comes no later than `other`.
    fn is_le(&self, other: &Self) -> (r: bool)
        ensures
            r == self.le(other),
    ;
}

impl TotalOrder for i32 {
    open spec fn le(&self, other: &i32) -> bool {
        *self <= *other
    }

    proof fn le_total(a: &i32, b: &i32) {
    }

    proof fn le_transitive(a: &i32, b: &i32, c: &i32) {
    }

    fn is_le(&self, other: &i32) -> (r: bool) {
        *self <= *other
    }
}

impl TotalOrder for i64 {
    open spec fn le(&self, other: &i64) -> bool {
        *self <= *other
    }

    proof fn le_total(a: &i64, b: &i64) {
    }

    proof fn le_transitive(a: &i64, b: &i64, c: &i64) {
    }

    fn is_le(&self, other: &i64) -> (r: bool) {
        *self <= *other
    }
}

impl TotalOrder for u32 {
    open spec fn le(&self, other: &u32) -> bool {
        *self <= *other
    }

    proof fn le_total(a: &u32, b: &u32) {
    }

    proof fn le_transitive(a: &u32, b: &u32, c: &u32) {
    }

    fn is_le(&self, other: &u32) -> (r: bool) {
        *self <= *other
    }
}

impl TotalOrder for u64 {
    open spec fn le(&self, other: &u64) -> bool {
        *self <= *other
    }

    proof fn le_total(a: &u64, b: &u64) {
    }

    proof fn le_transitive(a: &u64, b: &u64, c: &u64) {
    }

    fn is_le(&self, other: &u64) -> (r: bool) {
        *self <= *other
    }
}

impl TotalOrder for usize {
    open spec fn le(&self, other: &usize) -> bool {
        *self <= *other
    }

    proof fn le_total(a: &usize, b: &usize) {
    }

    proof fn le_transitive(a: &usize, b: &usize, c: &usize) {
    }

    fn is_le(&self, other: &usize) -> (r: bool) {
        *self <= *other
    }
}

} // verus!
