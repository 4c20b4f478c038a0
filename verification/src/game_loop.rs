use vstd::prelude::*;
use crate::time::now_millis;

verus! {

/// The tick period, in milliseconds: twenty ticks per second.
pub const GAMELOOP_SLEEP_TICK: u64 = 50;

/// Counts game ticks: a tick elapses when the period has passed since the
/// last one. The per-tick world updates are reserved for later work.
pub struct GameLoop {
    pub tick_count: u64,
    pub last_tick_ms: u64,
}

impl GameLoop {
    /// A loop whose clock starts at `now`.
    pub fn new_at(now: u64) -> (r: Self)
        ensures
            r.tick_count == 0,
            r.last_tick_ms == now,
    {
        GameLoop { tick_count: 0, last_tick_ms: now }
    }

    /// A loop whose clock starts now, by the wall clock.
    pub fn new() -> (r: Self)
        ensures
            r.tick_count == 0,
    {
        let now = now_millis();
        Self::new_at(now)
    }

    /// Advance the loop as of instant `now`: when a full period has passed
    /// since the last tick, count one tick and restart the period.
    pub fn tick_at(&mut self, now: u64)
        ensures
            if now >= old(self).last_tick_ms + GAMELOOP_SLEEP_TICK {
                final(self).tick_count == (if old(self).tick_count < u64::MAX {
                    old(self).tick_count + 1
                } else {
                    old(self).tick_count as int
                }) && final(self).last_tick_ms == now
            } else {
                *final(self) == *old(self)
            },
    {
        if now >= self.last_tick_ms && now - self.last_tick_ms >= GAMELOOP_SLEEP_TICK {
            if self.tick_count < u64::MAX {
                self.tick_count = self.tick_count + 1;
            }
            self.last_tick_ms = now;
        }
    }

    /// Advance the loop by the wall clock. The count never goes down.
    pub fn tick(&mut self)
        ensures
            final(self).tick_count >= old(self).tick_count,
    {
        let now = now_millis();
        self.tick_at(now);
    }

    /// How many ticks have elapsed.
    pub fn tick_count(&self) -> (r: u64)
        ensures
            r == self.tick_count,
    {
        self.tick_count
    }
}

} // verus!
