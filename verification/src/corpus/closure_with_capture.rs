//! A closure captures an outer boolean by reference and combines it with its
//! parameter. Its body is a MIR function of its own, in which the captured
//! `b` is a dereferenced field of the closure's environment.
use vstd::prelude::*;

verus! {

/// `a && b`, by way of a closure.
pub fn outer(a: bool, b: bool) -> (r: bool)
    ensures
        r == (a && b),
{
    let f = |x: bool| -> (y: bool)
        ensures
            y == (x && b),
        { x && b };
    f(a)
}

} // verus!
