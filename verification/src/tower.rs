//! Stationary towers: cooldown-gated firing and target selection.
//!
//! A tower may fire only when a full cooldown has elapsed since its
//! last shot.  Single-target archetypes pick the furthest-advanced
//! enemy in range (highest `path_index`, earliest list position on a
//! tie) — the threat closest to breaching; the splash archetype hits
//! every enemy in range.  Range tests are exact squared-distance
//! comparisons in millicells.

use vstd::prelude::*;
use crate::enemy::{Enemy, CELL_MU, lemma_pos_of_bounds};
use crate::level::{Point, path_in_bounds, path_connected, in_bounds, abs_diff};
use crate::settings::MAX_DIM;

verus! {

/// Tower archetypes; the type fixes damage, range, cooldown, cost and
/// targeting breadth.
#[derive(Clone, Copy, Debug, PartialEq, Eq, Structural)]
pub enum TowerType {
    Basic,
    Sniper,
    Splash,
}

/// A stationary actor: immutable position and archetype stats, plus
/// the time of its last shot.  `range_mu` is in millicells.
#[derive(Clone, Copy, Debug, PartialEq, Eq, Structural)]
pub struct Tower {
    pub tower_type: TowerType,
    pub position: Point,
    pub damage: u32,
    pub range_mu: u32,
    pub cooldown_ms: u32,
    pub last_fire_ms: u64,
}

impl Tower {
    pub open spec fn spec_new(tower_type: TowerType, position: Point) -> Tower {
        match tower_type {
            TowerType::Basic => Tower {
                tower_type,
                position,
                damage: 10u32,
                range_mu: 3000u32,
                cooldown_ms: 1000u32,
                last_fire_ms: 0u64,
            },
            TowerType::Sniper => Tower {
                tower_type,
                position,
                damage: 50u32,
                range_mu: 10000u32,
                cooldown_ms: 3000u32,
                last_fire_ms: 0u64,
            },
            TowerType::Splash => Tower {
                tower_type,
                position,
                damage: 15u32,
                range_mu: 2000u32,
                cooldown_ms: 1500u32,
                last_fire_ms: 0u64,
            },
        }
    }

    pub fn new(tower_type: TowerType, position: Point) -> (t: Tower)
        ensures
            t == Tower::spec_new(tower_type, position),
    {
        match tower_type {
            TowerType::Basic => Tower {
                tower_type,
                position,
                damage: 10,
                range_mu: 3000,
                cooldown_ms: 1000,
                last_fire_ms: 0,
            },
            TowerType::Sniper => Tower {
                tower_type,
                position,
                damage: 50,
                range_mu: 10000,
                cooldown_ms: 3000,
                last_fire_ms: 0,
            },
            TowerType::Splash => Tower {
                tower_type,
                position,
                damage: 15,
                range_mu: 2000,
                cooldown_ms: 1500,
                last_fire_ms: 0,
            },
        }
    }

    pub open spec fn spec_cost(tower_type: TowerType) -> u32 {
        match tower_type {
            TowerType::Basic => 100u32,
            TowerType::Sniper => 150u32,
            TowerType::Splash => 200u32,
        }
    }

    /// Money a placement of this archetype deducts.
    pub fn cost(tower_type: TowerType) -> (c: u32)
        ensures
            c == Tower::spec_cost(tower_type),
    {
        match tower_type {
            TowerType::Basic => 100,
            TowerType::Sniper => 150,
            TowerType::Splash => 200,
        }
    }

    /// A full cooldown has elapsed since the last shot.
    pub open spec fn can_fire_spec(self, now_ms: u64) -> bool {
        now_ms >= self.last_fire_ms + self.cooldown_ms
    }

    pub fn can_fire(&self, now_ms: u64) -> (r: bool)
        ensures
            r == self.can_fire_spec(now_ms),
    {
        if now_ms < self.last_fire_ms {
            false
        } else {
            now_ms - self.last_fire_ms >= self.cooldown_ms as u64
        }
    }

    /// The tower's center in millicells.
    pub open spec fn center_mu(self) -> (int, int) {
        (self.position.x * CELL_MU + CELL_MU / 2, self.position.y * CELL_MU + CELL_MU / 2)
    }

    /// Euclidean range test by squared distance: no rounding, no
    /// square roots.
    pub open spec fn in_range_spec(self, e: Enemy, path: Seq<Point>) -> bool {
        let c = self.center_mu();
        let p = e.pos_of(path);
        (c.0 - p.0) * (c.0 - p.0) + (c.1 - p.1) * (c.1 - p.1) <= self.range_mu * self.range_mu
    }

    pub fn is_in_range(&self, enemy: &Enemy, path: &Vec<Point>) -> (r: bool)
        requires
            enemy.wf(path@.len() as int),
            path_in_bounds(path@, MAX_DIM, MAX_DIM),
            path_connected(path@),
            in_bounds(self.position, MAX_DIM, MAX_DIM),
        ensures
            r == self.in_range_spec(*enemy, path@),
    {
        let (ex, ey) = enemy.position_mu(path);
        proof {
            assert(self.position.x < 1000 && self.position.y < 1000);
            assert((self.position.x as int) * (CELL_MU as int) < 1000000) by (nonlinear_arith)
                requires
                    self.position.x < 1000,
                    CELL_MU == 1000,
            ;
            assert((self.position.y as int) * (CELL_MU as int) < 1000000) by (nonlinear_arith)
                requires
                    self.position.y < 1000,
                    CELL_MU == 1000,
            ;
        }
        let tx: u64 = self.position.x as u64 * CELL_MU as u64 + (CELL_MU / 2) as u64;
        let ty: u64 = self.position.y as u64 * CELL_MU as u64 + (CELL_MU / 2) as u64;
        proof {
            lemma_pos_of_bounds(*enemy, path@);
        }
        let dx: u64 = if ex >= tx {
            ex - tx
        } else {
            tx - ex
        };
        let dy: u64 = if ey >= ty {
            ey - ty
        } else {
            ty - ey
        };
        proof {
            lemma_abs_square(tx as int, ex as int, dx as int);
            lemma_abs_square(ty as int, ey as int, dy as int);
            assert(dx <= 2000000 && dy <= 2000000);
            lemma_square_bound(dx as int, 2000000);
            lemma_square_bound(dy as int, 2000000);
            lemma_square_bound(self.range_mu as int, 0xffff_ffff);
            assert(2000000int * 2000000int == 4000000000000int) by (nonlinear_arith);
            assert(0xffff_ffffint * 0xffff_ffffint < 0xffff_ffff_ffff_ffffint) by (nonlinear_arith);
        }
        let d2: u64 = dx * dx + dy * dy;
        let r2: u64 = self.range_mu as u64 * self.range_mu as u64;
        d2 <= r2
    }

    /// The single target of a threat-priority tower among the first
    /// `n` enemies: the in-range enemy with the highest `path_index`,
    /// the earliest such on a tie.
    pub open spec fn best_target_upto(self, es: Seq<Enemy>, path: Seq<Point>, n: int) -> Option<
        usize,
    >
        decreases n,
    {
        if n <= 0 {
            None
        } else {
            let prev = self.best_target_upto(es, path, n - 1);
            if !self.in_range_spec(es[n - 1], path) {
                prev
            } else {
                match prev {
                    None => Some((n - 1) as usize),
                    Some(j) => if es[n - 1].path_index > es[j as int].path_index {
                        Some((n - 1) as usize)
                    } else {
                        Some(j)
                    },
                }
            }
        }
    }

    /// Every in-range enemy among the first `n`, in list order.
    pub open spec fn splash_targets_upto(self, es: Seq<Enemy>, path: Seq<Point>, n: int) -> Seq<
        usize,
    >
        decreases n,
    {
        if n <= 0 {
            Seq::empty()
        } else {
            let prev = self.splash_targets_upto(es, path, n - 1);
            if self.in_range_spec(es[n - 1], path) {
                prev.push((n - 1) as usize)
            } else {
                prev
            }
        }
    }

    /// The indices this tower fires at when it shoots: one
    /// furthest-advanced enemy for `Basic` and `Sniper`, every enemy
    /// in range for `Splash`.
    pub open spec fn spec_targets(self, es: Seq<Enemy>, path: Seq<Point>) -> Seq<usize> {
        match self.tower_type {
            TowerType::Splash => self.splash_targets_upto(es, path, es.len() as int),
            _ => match self.best_target_upto(es, path, es.len() as int) {
                None => Seq::empty(),
                Some(j) => seq![j],
            },
        }
    }

    /// Selects this tower's targets among the live enemies.
    pub fn find_targets(&self, enemies: &Vec<Enemy>, path: &Vec<Point>) -> (r: Vec<usize>)
        requires
            forall|i: int|
                0 <= i < enemies@.len() ==> (#[trigger] enemies@[i]).wf(path@.len() as int),
            path_in_bounds(path@, MAX_DIM, MAX_DIM),
            path_connected(path@),
            in_bounds(self.position, MAX_DIM, MAX_DIM),
        ensures
            r@ == self.spec_targets(enemies@, path@),
            forall|k: int| 0 <= k < r@.len() ==> #[trigger] r@[k] < enemies@.len(),
    {
        let is_splash = match self.tower_type {
            TowerType::Splash => true,
            _ => false,
        };
        if is_splash {
            let mut out: Vec<usize> = Vec::new();
            let mut i: usize = 0;
            while i < enemies.len()
                invariant
                    i <= enemies@.len(),
                    self.tower_type == TowerType::Splash,
                    forall|k: int|
                        0 <= k < enemies@.len() ==> (#[trigger] enemies@[k]).wf(
                            path@.len() as int,
                        ),
                    path_in_bounds(path@, MAX_DIM, MAX_DIM),
                    path_connected(path@),
                    in_bounds(self.position, MAX_DIM, MAX_DIM),
                    out@ == self.splash_targets_upto(enemies@, path@, i as int),
                    forall|k: int| 0 <= k < out@.len() ==> #[trigger] out@[k] < i,
                decreases enemies@.len() - i,
            {
                if self.is_in_range(&enemies[i], path) {
                    out.push(i);
                }
                i = i + 1;
            }
            out
        } else {
            let mut best: Option<usize> = None;
            let mut i: usize = 0;
            while i < enemies.len()
                invariant
                    i <= enemies@.len(),
                    self.tower_type != TowerType::Splash,
                    forall|k: int|
                        0 <= k < enemies@.len() ==> (#[trigger] enemies@[k]).wf(
                            path@.len() as int,
                        ),
                    path_in_bounds(path@, MAX_DIM, MAX_DIM),
                    path_connected(path@),
                    in_bounds(self.position, MAX_DIM, MAX_DIM),
                    best == self.best_target_upto(enemies@, path@, i as int),
                    best matches Some(j) ==> j < i,
                decreases enemies@.len() - i,
            {
                if self.is_in_range(&enemies[i], path) {
                    best = match best {
                        None => Some(i),
                        Some(j) => if enemies[i].path_index > enemies[j].path_index {
                            Some(i)
                        } else {
                            Some(j)
                        },
                    };
                }
                i = i + 1;
            }
            let mut out: Vec<usize> = Vec::new();
            match best {
                None => {},
                Some(j) => {
                    out.push(j);
                },
            }
            proof {
                assert(out@ == self.spec_targets(enemies@, path@));
            }
            out
        }
    }
}

/// The square of a difference equals the square of its absolute value.
proof fn lemma_abs_square(a: int, b: int, d: int)
    requires
        d == abs_diff(a, b),
    ensures
        (a - b) * (a - b) == d * d,
        (b - a) * (b - a) == d * d,
{
    assert((a - b) * (a - b) == d * d && (b - a) * (b - a) == d * d) by (nonlinear_arith)
        requires
            d == a - b || d == b - a,
    ;
}

/// Squares are monotone on non-negative values.
proof fn lemma_square_bound(d: int, bound: int)
    requires
        0 <= d <= bound,
    ensures
        d * d <= bound * bound,
{
    assert(d * d <= bound * bound) by (nonlinear_arith)
        requires
            0 <= d <= bound,
    ;
}

} // verus!
