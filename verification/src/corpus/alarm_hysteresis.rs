//! Alarm raise logic with hysteresis: the alarm trips over the absolute
//! maximum, and once latched it clears only below the lower threshold.
use vstd::prelude::*;

verus! {

/// Whether the alarm is raised.
pub fn raise_alarm(over_max: bool, was_alarming: bool, over_threshold: bool) -> (r: bool)
    ensures
        r == (over_max || (was_alarming && over_threshold)),
{
    over_max || (was_alarming && over_threshold)
}

} // verus!
