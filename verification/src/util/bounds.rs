//! The least and the greatest value of a number type.
use vstd::prelude::*;

verus! {

/// Number types with a least value.
pub trait Min: Sized {
    /// The least value of the type.
    spec fn spec_min() -> Self;

    /// Returns the least value of the type.
    fn min() -> (m: Self)
        ensures
            m == Self::spec_min(),
    ;
}

/// Number types with a greatest value.
pub trait Max: Sized {
    /// The greatest value of the type.
    spec fn spec_max() -> Self;

    /// Returns the greatest value of the type.
    fn max() -> (m: Self)
        ensures
            m == Self::spec_max(),
    ;
}

impl Min for usize {
    open spec fn spec_min() -> usize {
        0
    }

    fn min() -> (m: usize) {
        usize::MIN
    }
}

impl Max for usize {
    open spec fn spec_max() -> usize {
        usize::MAX
    }

    fn max() -> (m: usize) {
        usize::MAX
    }
}

impl Min for i64 {
    open spec fn spec_min() -> i64 {
        i64::MIN
    }

    fn min() -> (m: i64) {
        i64::MIN
    }
}

impl Max for i64 {
    open spec fn spec_max() -> i64 {
        i64::MAX
    }

    fn max() -> (m: i64) {
        i64::MAX
    }
}

impl Min for i32 {
    open spec fn spec_min() -> i32 {
        i32::MIN
    }

    fn min() -> (m: i32) {
        i32::MIN
    }
}

impl Max for i32 {
    open spec fn spec_max() -> i32 {
        i32::MAX
    }

    fn max() -> (m: i32) {
        i32::MAX
    }
}

} // verus!
