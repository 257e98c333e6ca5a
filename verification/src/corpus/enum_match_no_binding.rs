//! Two-variant enum match without bindings: the canonical dispatch shape of a
//! state machine.
use vstd::prelude::*;

verus! {

/// An operating mode.
pub enum Mode {
    /// Operating.
    On,
    /// Not operating.
    Off,
}

/// Whether the mode is [`Mode::On`].
pub fn is_active(mode: Mode) -> (r: bool)
    ensures
        r == (mode is On),
{
    match mode {
        Mode::On => true,
        Mode::Off => false,
    }
}

} // verus!
