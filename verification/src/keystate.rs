use vstd::prelude::*;

verus! {

/// A snapshot of the four logical input buttons. It is overwritten wholesale
/// on every input update, never merged.
#[derive(Clone, Copy, Debug, PartialEq, Eq, Structural)]
pub struct KeyState {
    pub left: bool,
    pub right: bool,
    pub up: bool,
    pub space: bool,
}

impl KeyState {
    /// The default snapshot: no button held.
    pub fn new() -> (k: KeyState)
        ensures
            k == (KeyState { left: false, right: false, up: false, space: false }),
    {
        KeyState { left: false, right: false, up: false, space: false }
    }
}

} // verus!
