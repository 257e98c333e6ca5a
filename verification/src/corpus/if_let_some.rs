//! `if let` with a binding: the pattern match contributes a synthetic
//! condition (`opt is Some`), and the matched arm uses the bound value.
use vstd::prelude::*;

verus! {

/// The bound value, or `false`.
pub fn decide(opt: Option<bool>) -> (r: bool)
    ensures
        r == (opt == Some(true)),
{
    if let Some(x) = opt {
        x
    } else {
        false
    }
}

} // verus!
