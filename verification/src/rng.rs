//! The one randomness primitive the library draws from outside: a
//! uniformly chosen index below a bound.

use vstd::prelude::*;

verus! {

/// Relies on rand::random_range over the half-open range `0..n`: the
/// result lies in that range, and the call panics only when the range is
/// empty, which `n >= 1` rules out. Nothing more is assumed of which
/// value comes back.
#[verifier::external_body]
pub(crate) fn random_below(n: usize) -> (r: usize)
    requires
        1 <= n,
    ensures
        r < n,
{
    rand::random_range(0..n)
}

} // verus!
