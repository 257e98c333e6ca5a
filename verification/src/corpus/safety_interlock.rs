//! Triple-redundant actuator interlock: an actuator may fire only when the
//! master enable and both safety channels agree; any single fault inhibits
//! it.
use vstd::prelude::*;

verus! {

/// Whether the actuator may fire.
pub fn allow_actuation(master_enable: bool, channel_a_ok: bool, channel_b_ok: bool) -> (r: bool)
    ensures
        r == (master_enable && channel_a_ok && channel_b_ok),
{
    master_enable && channel_a_ok && channel_b_ok
}

} // verus!
