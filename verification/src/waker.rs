//! What the library relies on about `std::task::Waker`.
//!
//! A waker is opaque. In specifications a `Waker` value stands for the task that it wakes, so two
//! wakers are equal exactly when waking one has the same effect as waking the other.

use std::task::Waker;
use vstd::prelude::*;

verus! {

/// `std::task::Waker`, carried through as an opaque value.
#[verifier::external_type_specification]
#[verifier::external_body]
pub struct ExWaker(Waker);

/// `Waker::clone` hands out a waker for the same task.
pub assume_specification[ <Waker as Clone>::clone ](waker: &Waker) -> (copy: Waker)
    ensures
        copy == *waker,
;

/// `Waker::will_wake` answers `true` only for two wakers of the same task.
///
/// It works on a best-effort basis: `false` says nothing about the two wakers.
pub assume_specification[ Waker::will_wake ](waker: &Waker, other: &Waker) -> (same: bool)
    ensures
        same ==> *waker == *other,
;

} // verus!
