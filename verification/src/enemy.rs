//! Enemies walking the path.
//!
//! An enemy's place on the map is the pair `(path_index, progress)`:
//! the last path node reached and how many millicells of the next
//! segment it has covered.  Because consecutive path cells are
//! cardinally adjacent, every segment is exactly `CELL_MU` millicells
//! long and the continuous position interpolates along one axis, so
//! the whole movement model is exact integer arithmetic.  One tick
//! spends a movement budget of `speed * dt / 1000` millicells and may
//! consume several nodes when the budget spans them.

use vstd::prelude::*;
use crate::level::{Point, path_in_bounds, path_connected, cardinal_adjacent, in_bounds};
use crate::settings::MAX_DIM;

verus! {

/// Millicells per grid cell: one path segment's length.
pub const CELL_MU: u32 = 1000;

/// Enemy archetypes; the tier fixes health, speed and kill reward.
#[derive(Clone, Copy, Debug, PartialEq, Eq, Structural)]
pub enum EnemyType {
    Weak,
    Normal,
    Strong,
}

/// A mobile actor on the path.  `speed` is in millicells per second;
/// health is clamped at zero rather than going negative.
#[derive(Clone, Copy, Debug, PartialEq, Eq, Structural)]
pub struct Enemy {
    pub enemy_type: EnemyType,
    pub health: u32,
    pub max_health: u32,
    pub speed: u32,
    pub path_index: usize,
    pub progress: u32,
}

/// Millicells of movement one tick affords.
pub open spec fn budget_mu(speed: u32, dt_ms: u32) -> int {
    (speed * dt_ms) / (CELL_MU as int)
}

/// Total accumulated progress when the last node is `cap` away:
/// advance by the budget but never past the end of the path.
pub open spec fn stepped(total: int, budget: int, cap: int) -> int {
    if total + budget <= cap {
        total + budget
    } else {
        cap
    }
}

/// `k` ticks of `stepped` with the same budget.
pub open spec fn stepped_n(total: int, budget: int, cap: int, k: nat) -> int
    decreases k,
{
    if k == 0 {
        total
    } else {
        stepped(stepped_n(total, budget, cap, (k - 1) as nat), budget, cap)
    }
}

/// Accumulated progress along the whole path, in millicells.
impl Enemy {
    pub open spec fn total_mu(self) -> int {
        self.path_index * CELL_MU + self.progress
    }

    /// Well-formed with respect to a path of `path_len` nodes: the
    /// index is on the path, partial progress stays below one segment
    /// and vanishes on the terminal node, and health never exceeds the
    /// maximum.
    pub open spec fn wf(self, path_len: int) -> bool {
        &&& self.path_index < path_len
        &&& self.progress < CELL_MU
        &&& (self.path_index == path_len - 1 ==> self.progress == 0)
        &&& self.health <= self.max_health
    }

    pub open spec fn spec_new(enemy_type: EnemyType) -> Enemy {
        match enemy_type {
            EnemyType::Weak => Enemy {
                enemy_type,
                health: 50u32,
                max_health: 50u32,
                speed: 1000u32,
                path_index: 0usize,
                progress: 0u32,
            },
            EnemyType::Normal => Enemy {
                enemy_type,
                health: 100u32,
                max_health: 100u32,
                speed: 800u32,
                path_index: 0usize,
                progress: 0u32,
            },
            EnemyType::Strong => Enemy {
                enemy_type,
                health: 200u32,
                max_health: 200u32,
                speed: 600u32,
                path_index: 0usize,
                progress: 0u32,
            },
        }
    }

    /// Spawns a tiered enemy at the first path node.
    pub fn new(enemy_type: EnemyType) -> (e: Enemy)
        ensures
            e == Enemy::spec_new(enemy_type),
            e.wf(2),
    {
        match enemy_type {
            EnemyType::Weak => Enemy {
                enemy_type,
                health: 50,
                max_health: 50,
                speed: 1000,
                path_index: 0,
                progress: 0,
            },
            EnemyType::Normal => Enemy {
                enemy_type,
                health: 100,
                max_health: 100,
                speed: 800,
                path_index: 0,
                progress: 0,
            },
            EnemyType::Strong => Enemy {
                enemy_type,
                health: 200,
                max_health: 200,
                speed: 600,
                path_index: 0,
                progress: 0,
            },
        }
    }

    /// Spawns at the first path node with explicit stats instead of
    /// the tier table.
    pub fn with_stats(enemy_type: EnemyType, health: u32, speed: u32) -> (e: Enemy)
        ensures
            e == (Enemy {
                enemy_type,
                health,
                max_health: health,
                speed,
                path_index: 0usize,
                progress: 0u32,
            }),
    {
        Enemy { enemy_type, health, max_health: health, speed, path_index: 0, progress: 0 }
    }

    /// Advances along a path of `path_len` nodes by one tick of
    /// `dt_ms` milliseconds, consuming as many nodes as the movement
    /// budget covers and stopping exactly on the terminal node.
    pub fn update(&mut self, path_len: usize, dt_ms: u32)
        requires
            old(self).wf(path_len as int),
            path_len >= 1,
        ensures
            final(self).wf(path_len as int),
            final(self).enemy_type == old(self).enemy_type,
            final(self).health == old(self).health,
            final(self).max_health == old(self).max_health,
            final(self).speed == old(self).speed,
            final(self).total_mu() == stepped(
                old(self).total_mu(),
                budget_mu(old(self).speed, dt_ms),
                (path_len - 1) * CELL_MU,
            ),
    {
        let ghost cap = (path_len - 1) * (CELL_MU as int);
        let ghost total0 = old(self).total_mu();
        proof {
            assert((self.speed as int) * (dt_ms as int) <= 0xffff_ffff * 0xffff_ffff)
                by (nonlinear_arith)
                requires
                    self.speed <= 0xffff_ffffu32,
                    dt_ms <= 0xffff_ffffu32,
            ;
        }
        let budget_total: u64 = (self.speed as u64) * (dt_ms as u64) / (CELL_MU as u64);
        let mut budget: u64 = budget_total;
        proof {
            assert(budget_total == budget_mu(self.speed, dt_ms));
        }
        while budget > 0 && self.path_index < path_len - 1
            invariant
                self.wf(path_len as int),
                path_len >= 1,
                self.enemy_type == old(self).enemy_type,
                self.health == old(self).health,
                self.max_health == old(self).max_health,
                self.speed == old(self).speed,
                stepped(self.total_mu(), budget as int, cap) == stepped(
                    total0,
                    budget_total as int,
                    cap,
                ),
                cap == (path_len - 1) * (CELL_MU as int),
            decreases budget,
        {
            let remaining: u64 = (CELL_MU - self.progress) as u64;
            if budget >= remaining {
                self.path_index = self.path_index + 1;
                self.progress = 0;
                budget = budget - remaining;
            } else {
                self.progress = self.progress + budget as u32;
                budget = 0;
            }
        }
    }

    /// Saturating damage: health drops by `damage` but never below
    /// zero.
    pub fn take_damage(&mut self, damage: u32)
        ensures
            final(self).health == if damage >= old(self).health {
                0int
            } else {
                old(self).health - damage
            },
            final(self).enemy_type == old(self).enemy_type,
            final(self).max_health == old(self).max_health,
            final(self).speed == old(self).speed,
            final(self).path_index == old(self).path_index,
            final(self).progress == old(self).progress,
    {
        if damage >= self.health {
            self.health = 0;
        } else {
            self.health = self.health - damage;
        }
    }

    pub fn is_dead(&self) -> (r: bool)
        ensures
            r == (self.health == 0),
    {
        self.health == 0
    }

    /// Whether the enemy stands on the terminal path node.
    pub fn reached_end(&self, path_len: usize) -> (r: bool)
        requires
            path_len >= 1,
        ensures
            r == (self.path_index as int == path_len - 1),
    {
        self.path_index == path_len - 1
    }

    pub open spec fn spec_reward(enemy_type: EnemyType) -> u32 {
        match enemy_type {
            EnemyType::Weak => 10u32,
            EnemyType::Normal => 20u32,
            EnemyType::Strong => 30u32,
        }
    }

    /// Money credited when this enemy dies.
    pub fn reward(&self) -> (r: u32)
        ensures
            r == Enemy::spec_reward(self.enemy_type),
            r <= MAX_REWARD,
    {
        match self.enemy_type {
            EnemyType::Weak => 10,
            EnemyType::Normal => 20,
            EnemyType::Strong => 30,
        }
    }

    /// Remaining health as a fraction of the maximum, in permille —
    /// what a health bar fills to.
    pub fn health_permille(&self) -> (r: u32)
        requires
            self.health <= self.max_health,
        ensures
            r == if self.max_health == 0 {
                0int
            } else {
                (self.health as int) * 1000 / (self.max_health as int)
            },
            r <= 1000,
    {
        if self.max_health == 0 {
            0
        } else {
            proof {
                assert((self.health as int) * 1000 <= (self.max_health as int) * 1000)
                    by (nonlinear_arith)
                    requires
                        self.health <= self.max_health,
                ;
                vstd::arithmetic::div_mod::lemma_div_is_ordered(
                    (self.health as int) * 1000,
                    (self.max_health as int) * 1000,
                    self.max_health as int,
                );
                assert((self.max_health as int) * 1000 == 1000 * (self.max_health as int))
                    by (nonlinear_arith);
                vstd::arithmetic::div_mod::lemma_div_by_multiple(1000, self.max_health as int);
            }
            ((self.health as u64 * 1000) / (self.max_health as u64)) as u32
        }
    }

    /// Continuous position in millicells: the center of the current
    /// cell, pushed `progress` millicells toward the next node.
    pub open spec fn pos_of(self, path: Seq<Point>) -> (int, int) {
        let cur = path[self.path_index as int];
        if self.path_index + 1 < path.len() {
            let next = path[self.path_index + 1];
            (
                cur.x * CELL_MU + CELL_MU / 2 + (next.x - cur.x) * self.progress,
                cur.y * CELL_MU + CELL_MU / 2 + (next.y - cur.y) * self.progress,
            )
        } else {
            (cur.x * CELL_MU + CELL_MU / 2, cur.y * CELL_MU + CELL_MU / 2)
        }
    }

    /// Computes the continuous position on a well-formed path.
    pub fn position_mu(&self, path: &Vec<Point>) -> (pos: (u64, u64))
        requires
            self.wf(path@.len() as int),
            path_in_bounds(path@, MAX_DIM, MAX_DIM),
            path_connected(path@),
        ensures
            pos.0 == self.pos_of(path@).0,
            pos.1 == self.pos_of(path@).1,
    {
        let cur = path[self.path_index];
        let base_x: u64 = cur.x as u64 * CELL_MU as u64 + (CELL_MU / 2) as u64;
        let base_y: u64 = cur.y as u64 * CELL_MU as u64 + (CELL_MU / 2) as u64;
        if self.path_index < path.len() - 1 {
            let next = path[self.path_index + 1];
            proof {
                assert(cardinal_adjacent(path@[self.path_index as int], path@[self.path_index + 1]));
            }
            let px: u64 = if next.x > cur.x {
                base_x + self.progress as u64
            } else if next.x < cur.x {
                base_x - self.progress as u64
            } else {
                base_x
            };
            let py: u64 = if next.y > cur.y {
                base_y + self.progress as u64
            } else if next.y < cur.y {
                base_y - self.progress as u64
            } else {
                base_y
            };
            proof {
                lemma_unit_mul(next.x - cur.x, self.progress as int);
                lemma_unit_mul(next.y - cur.y, self.progress as int);
                assert(px == self.pos_of(path@).0);
                assert(py == self.pos_of(path@).1);
            }
            (px, py)
        } else {
            (base_x, base_y)
        }
    }
}

/// On a path inside a `MAX_DIM`-capped grid, the continuous position
/// stays within one cell of the grid's millicell extent.
pub proof fn lemma_pos_of_bounds(e: Enemy, path: Seq<Point>)
    requires
        e.wf(path.len() as int),
        path_in_bounds(path, MAX_DIM, MAX_DIM),
        path_connected(path),
    ensures
        0 <= e.pos_of(path).0 <= MAX_DIM * CELL_MU + CELL_MU,
        0 <= e.pos_of(path).1 <= MAX_DIM * CELL_MU + CELL_MU,
{
    let i = e.path_index as int;
    assert(in_bounds(path[i], MAX_DIM, MAX_DIM));
    if e.path_index + 1 < path.len() {
        assert(in_bounds(path[i + 1], MAX_DIM, MAX_DIM));
        assert(cardinal_adjacent(path[i], path[i + 1]));
        lemma_unit_mul(path[i + 1].x - path[i].x, e.progress as int);
        lemma_unit_mul(path[i + 1].y - path[i].y, e.progress as int);
    }
}

/// Largest tier kill reward, used to bound per-tick money credit.
pub const MAX_REWARD: u32 = 30;

/// Multiplying by a factor known to be -1, 0 or 1.
proof fn lemma_unit_mul(d: int, p: int)
    ensures
        d == 1 ==> d * p == p,
        d == -1 ==> d * p == -p,
        d == 0 ==> d * p == 0,
{
    assert(d == 1 ==> d * p == p) by (nonlinear_arith);
    assert(d == -1 ==> d * p == -p) by (nonlinear_arith);
    assert(d == 0 ==> d * p == 0) by (nonlinear_arith);
}

pub open spec fn min_i(a: int, b: int) -> int {
    if a <= b {
        a
    } else {
        b
    }
}

/// Closed form of repeated ticking: after `k` ticks of the same
/// budget, accumulated progress is the starting total plus `k`
/// budgets, capped at the end of the path.
pub proof fn lemma_stepped_n_closed(total: int, budget: int, cap: int, k: nat)
    requires
        total <= cap,
        budget >= 0,
    ensures
        stepped_n(total, budget, cap, k) == min_i(total + k * budget, cap),
    decreases k,
{
    if k == 0 {
        assert(k * budget == 0) by (nonlinear_arith)
            requires k == 0
        ;
    } else {
        lemma_stepped_n_closed(total, budget, cap, (k - 1) as nat);
        assert(k * budget == (k - 1) * budget + budget) by (nonlinear_arith);
    }
}

/// Movement convergence: an enemy that gains at least one millicell
/// per tick reaches the end of the path — accumulated progress equals
/// the cap — after finitely many ticks, no more than the remaining
/// distance.
pub proof fn lemma_movement_convergence(total: int, budget: int, cap: int, k: nat)
    requires
        0 <= total <= cap,
        budget >= 1,
        k * budget >= cap - total,
    ensures
        stepped_n(total, budget, cap, k) == cap,
{
    lemma_stepped_n_closed(total, budget, cap, k);
}

/// No overshoot: when one tick's budget is below a full segment, the
/// path index grows by at most one node in that tick.
pub proof fn lemma_no_overshoot(pre: Enemy, post: Enemy, path_len: int, dt_ms: u32)
    requires
        pre.wf(path_len),
        post.wf(path_len),
        budget_mu(pre.speed, dt_ms) < CELL_MU,
        post.total_mu() == stepped(pre.total_mu(), budget_mu(pre.speed, dt_ms), (path_len - 1)
            * CELL_MU),
    ensures
        post.path_index <= pre.path_index + 1,
{
    assert(post.total_mu() < pre.total_mu() + CELL_MU);
    assert(post.path_index * CELL_MU < (pre.path_index + 2) * CELL_MU);
}

} // verus!
