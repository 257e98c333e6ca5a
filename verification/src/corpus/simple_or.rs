//! Canonical two-condition OR with short-circuit evaluation.
use vstd::prelude::*;

verus! {

/// `a || b`.
pub fn decide(a: bool, b: bool) -> (r: bool)
    ensures
        r == (a || b),
{
    a || b
}

} // verus!
