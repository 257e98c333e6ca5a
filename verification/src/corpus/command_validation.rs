//! Guarded command validation: a command is accepted only when a request is
//! present, its payload validates, and the system is armed.
use vstd::prelude::*;

verus! {

/// Whether the command is accepted.
pub fn accept_command(req: Option<bool>, armed: bool) -> (r: bool)
    ensures
        r == (req == Some(true) && armed),
{
    if let Some(payload_ok) = req {
        payload_ok && armed
    } else {
        false
    }
}

} // verus!
