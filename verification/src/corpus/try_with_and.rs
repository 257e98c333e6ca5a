//! The `?` operator around a boolean `&&`: the walk looks through the `?` and
//! recovers the inner `x && b`.
use vstd::prelude::*;

verus! {

/// `x && b` of the value `x`, if there is one.
pub fn decide(opt: Option<bool>, b: bool) -> (r: Option<bool>)
    ensures
        r == match opt {
            Some(x) => Some(x && b),
            None => None,
        },
{
    let x = opt?;
    Some(x && b)
}

} // verus!
