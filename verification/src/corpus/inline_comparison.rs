//! Inline comparison and `&&`: the comparison produces a MIR temporary, for
//! which the condition name `speed > 50` is synthesized.
use vstd::prelude::*;

verus! {

/// `speed > 50 && brake`.
pub fn decide(speed: i32, brake: bool) -> (r: bool)
    ensures
        r == (speed > 50 && brake),
{
    speed > 50 && brake
}

} // verus!
