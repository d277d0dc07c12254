//! Tunable parameters of one run.
//!
//! All quantities are fixed-point: a grid cell is 1000 millicells on a
//! side and time is counted in milliseconds.

use vstd::prelude::*;

verus! {

/// What happens when a live enemy reaches the last path node.
#[derive(Clone, Copy, Debug, PartialEq, Eq, Structural)]
pub enum BreachPolicy {
    /// The run ends on the first breach.
    EndGame,
    /// The enemy despawns with no further effect.
    Despawn,
    /// The enemy despawns and the breach costs money, floored at zero.
    MoneyPenalty,
}

/// Parameters fixed for the length of a run.  Grid dimensions are
/// capped at `MAX_DIM` cells so that every squared-distance and
/// position computation fits comfortably in 64 bits.
#[derive(Clone, Copy, Debug, PartialEq, Eq, Structural)]
pub struct Settings {
    pub grid_width: usize,
    pub grid_height: usize,
    pub num_waypoints: usize,
    /// Milliseconds between two spawns while a wave still has a quota.
    pub spawn_interval_ms: u32,
    pub initial_money: u32,
    /// Money granted when a wave is cleared.
    pub wave_bonus: u32,
    /// Spawn quota of wave `w` is `w * wave_quota_factor`.
    pub wave_quota_factor: u32,
    pub breach_policy: BreachPolicy,
    /// Money lost per breach under `BreachPolicy::MoneyPenalty`.
    pub breach_penalty: u32,
}

/// Upper bound on either grid dimension, in cells.
pub const MAX_DIM: usize = 1000;

impl Settings {
    /// Dimensions that every position and distance computation in the
    /// simulation can assume.
    pub open spec fn valid(self) -> bool {
        &&& 1 <= self.grid_width <= MAX_DIM
        &&& 1 <= self.grid_height <= MAX_DIM
    }

    pub fn new() -> (s: Settings)
        ensures
            s == (Settings {
                grid_width: 40usize,
                grid_height: 25usize,
                num_waypoints: 5usize,
                spawn_interval_ms: 5000u32,
                initial_money: 500u32,
                wave_bonus: 50u32,
                wave_quota_factor: 10u32,
                breach_policy: BreachPolicy::EndGame,
                breach_penalty: 0u32,
            }),
            s.valid(),
    {
        Settings {
            grid_width: 40,
            grid_height: 25,
            num_waypoints: 5,
            spawn_interval_ms: 5000,
            initial_money: 500,
            wave_bonus: 50,
            wave_quota_factor: 10,
            breach_policy: BreachPolicy::EndGame,
            breach_penalty: 0,
        }
    }
}

} // verus!
