//! Money, wave and kill bookkeeping for one run.

use vstd::prelude::*;

verus! {

/// Economy counters owned by the game controller: money never goes
/// negative, the wave number starts at 1, and the kill counter only
/// grows.
#[derive(Clone, Copy, Debug, PartialEq, Eq, Structural)]
pub struct GameStats {
    pub money: u32,
    pub wave: u32,
    pub enemies_killed: u32,
}

impl GameStats {
    pub fn new(initial_money: u32) -> (s: GameStats)
        ensures
            s == (GameStats { money: initial_money, wave: 1u32, enemies_killed: 0u32 }),
    {
        GameStats { money: initial_money, wave: 1, enemies_killed: 0 }
    }

    pub fn add_money(&mut self, amount: u32)
        requires
            old(self).money + amount <= u32::MAX,
        ensures
            final(self).money == old(self).money + amount,
            final(self).wave == old(self).wave,
            final(self).enemies_killed == old(self).enemies_killed,
    {
        self.money = self.money + amount;
    }

    /// Deducts `amount` when the funds cover it and reports whether it
    /// did; an uncovered request leaves the money untouched.
    pub fn spend_money(&mut self, amount: u32) -> (ok: bool)
        ensures
            ok == (old(self).money >= amount),
            ok ==> final(self).money == old(self).money - amount,
            !ok ==> final(self).money == old(self).money,
            final(self).wave == old(self).wave,
            final(self).enemies_killed == old(self).enemies_killed,
    {
        if self.money >= amount {
            self.money = self.money - amount;
            true
        } else {
            false
        }
    }

    pub fn next_wave(&mut self)
        requires
            old(self).wave < u32::MAX,
        ensures
            final(self).wave == old(self).wave + 1,
            final(self).money == old(self).money,
            final(self).enemies_killed == old(self).enemies_killed,
    {
        self.wave = self.wave + 1;
    }

    pub fn enemy_killed(&mut self)
        requires
            old(self).enemies_killed < u32::MAX,
        ensures
            final(self).enemies_killed == old(self).enemies_killed + 1,
            final(self).money == old(self).money,
            final(self).wave == old(self).wave,
    {
        self.enemies_killed = self.enemies_killed + 1;
    }
}

} // verus!
