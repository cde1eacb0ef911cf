use vstd::prelude::*;

verus! {

/// Elapsed game time in ticks.
#[derive(Debug, Clone, Copy, PartialEq, Eq, Structural)]
pub struct GameTime {
    ticks: u64,
}

impl GameTime {
    pub closed spec fn ticks_spec(&self) -> u64 {
        self.ticks
    }

    pub fn new() -> (r: GameTime)
        ensures
            r.ticks_spec() == 0,
    {
        GameTime { ticks: 0 }
    }

    pub fn ticks(&self) -> (r: u64)
        ensures
            r == self.ticks_spec(),
    {
        self.ticks
    }

    /// Moves time forward, stopping at the largest tick count.
    pub fn advance(&mut self, delta_ticks: u64)
        ensures
            final(self).ticks_spec() == (if old(self).ticks_spec() + delta_ticks > u64::MAX {
                u64::MAX as int
            } else {
                old(self).ticks_spec() + delta_ticks
            }),
    {
        self.ticks = self.ticks.saturating_add(delta_ticks);
    }
}

impl Default for GameTime {
    fn default() -> (r: GameTime)
        ensures
            r.ticks_spec() == 0,
    {
        GameTime::new()
    }
}

} // verus!
