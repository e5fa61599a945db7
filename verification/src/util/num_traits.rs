//! Unit values of number types.
use vstd::prelude::*;

verus! {

/// Number types with a small positive value, used where a weight must not be zero.
pub trait SmallVal: Sized {
    /// The small value of the type.
    spec fn spec_small() -> Self;

    /// Returns the small value of the type.
    fn small() -> (v: Self)
        ensures
            v == Self::spec_small(),
    ;
}

/// Number types with a multiplicative identity.
pub trait One: Sized {
    /// The identity of multiplication.
    spec fn spec_one() -> Self;

    /// Returns the identity of multiplication.
    fn one() -> (v: Self)
        ensures
            v == Self::spec_one(),
    ;
}

/// Number types with an additive identity.
pub trait Zero: Sized {
    /// The identity of addition.
    spec fn spec_zero() -> Self;

    /// Returns the identity of addition.
    fn zero() -> (v: Self)
        ensures
            v == Self::spec_zero(),
    ;
}

impl SmallVal for usize {
    open spec fn spec_small() -> usize {
        1
    }

    fn small() -> (v: usize) {
        1
    }
}

impl SmallVal for u32 {
    open spec fn spec_small() -> u32 {
        1
    }

    fn small() -> (v: u32) {
        1
    }
}

impl SmallVal for u64 {
    open spec fn spec_small() -> u64 {
        1
    }

    fn small() -> (v: u64) {
        1
    }
}

impl SmallVal for i32 {
    open spec fn spec_small() -> i32 {
        1
    }

    fn small() -> (v: i32) {
        1
    }
}

impl SmallVal for i64 {
    open spec fn spec_small() -> i64 {
        1
    }

    fn small() -> (v: i64) {
        1
    }
}

impl One for usize {
    open spec fn spec_one() -> usize {
        1
    }

    fn one() -> (v: usize) {
        1
    }
}

impl One for u64 {
    open spec fn spec_one() -> u64 {
        1
    }

    fn one() -> (v: u64) {
        1
    }
}

impl One for i64 {
    open spec fn spec_one() -> i64 {
        1
    }

    fn one() -> (v: i64) {
        1
    }
}

impl Zero for usize {
    open spec fn spec_zero() -> usize {
        0
    }

    fn zero() -> (v: usize) {
        0
    }
}

impl Zero for u64 {
    open spec fn spec_zero() -> u64 {
        0
    }

    fn zero() -> (v: u64) {
        0
    }
}

impl Zero for i64 {
    open spec fn spec_zero() -> i64 {
        0
    }

    fn zero() -> (v: i64) {
        0
    }
}

} // verus!
