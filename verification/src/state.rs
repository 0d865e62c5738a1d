//! The tick counter of the game state.

use vstd::prelude::*;

verus! {

/// The game state: the number of ticks completed.
pub struct EfficaxState {
    pub tick_id: u64,
}

impl EfficaxState {
    /// The state before the first tick.
    pub fn new() -> (s: EfficaxState)
        ensures
            s.tick_id == 0,
    {
        EfficaxState { tick_id: 0 }
    }

    /// Completes a tick.
    pub fn tick(&mut self)
        requires
            old(self).tick_id < u64::MAX,
        ensures
            final(self).tick_id == old(self).tick_id + 1,
    {
        self.tick_id = self.tick_id + 1;
    }
}

} // verus!
