//! Random numbers.

use vstd::prelude::*;

verus! {

/// `fastrand::usize(..n)` picks some number below `n`; it panics if there is none.
///
/// Which number it picks is left to chance.
#[verifier::external_body]
pub(crate) fn random_below(n: usize) -> (i: usize)
    requires
        n > 0,
    ensures
        i < n,
{
    fastrand::usize(..n)
}

} // verus!
