//! A `match` produces an intermediate boolean that is then combined with
//! another condition: the walk follows the intermediate value into the branch
//! further down.
use vstd::prelude::*;

verus! {

/// `n == 0 && b`.
pub fn classify(n: i32, b: bool) -> (r: bool)
    ensures
        r == (n == 0 && b),
{
    let lit = match n {
        0 => true,
        _ => false,
    };
    lit && b
}

} // verus!
