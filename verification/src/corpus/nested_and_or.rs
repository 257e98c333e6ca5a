//! First nested pattern: chained short-circuit across both operators.
use vstd::prelude::*;

verus! {

/// `(a && b) || c`.
pub fn decide(a: bool, b: bool, c: bool) -> (r: bool)
    ensures
        r == ((a && b) || c),
{
    (a && b) || c
}

} // verus!
