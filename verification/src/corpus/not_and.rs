//! Negated AND. rustc folds the unary `!` into the branching: the MIR has the
//! shape of `a && b` with the arms of the switch swapped.
use vstd::prelude::*;

verus! {

/// `!a && b`.
pub fn decide(a: bool, b: bool) -> (r: bool)
    ensures
        r == (!a && b),
{
    !a && b
}

} // verus!
