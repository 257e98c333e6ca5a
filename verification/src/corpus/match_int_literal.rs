//! `match` with an integer literal arm and a wildcard: one condition,
//! `n == 0`.
use vstd::prelude::*;

verus! {

/// Whether `n` is not zero.
pub fn decide(n: i32) -> (r: bool)
    ensures
        r == (n != 0),
{
    match n {
        0 => false,
        _ => true,
    }
}

} // verus!
