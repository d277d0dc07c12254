//! The simulation loop: one `step` advances the whole game by a tick.
//!
//! Per tick, in this order: elapsed time advances; every tower whose
//! cooldown has passed fires, its shots collected as deferred damage
//! events; the batch is applied at once; enemies walk the path;
//! dead enemies are removed (crediting their reward and the kill
//! counter exactly once each) and live enemies on the terminal node
//! are handled by the configured breach policy; the spawn timer may
//! create one enemy at the path start; and an exhausted, cleared wave
//! rolls over to the next one with a larger quota and a money bonus.
//! An enemy that is both dead and on the terminal node counts as a
//! kill, not a breach.
//!
//! `step` takes the spawn tier as an argument and is deterministic,
//! with an exact contract; `update` draws the tier from the seeded
//! generator and guarantees the same for some tier.

use vstd::prelude::*;
use crate::combat::{DamageEvent, spec_apply_events, apply_damage_events};
use crate::enemy::{Enemy, EnemyType, CELL_MU, MAX_REWARD, budget_mu, stepped};
use crate::level::{Level, LevelGenError, Point, point_in_vec, in_bounds, path_in_bounds};
use crate::rng::{rng_from_seed, rand_below};
use crate::settings::{BreachPolicy, Settings, MAX_DIM};
use crate::stats::GameStats;
use crate::tower::{Tower, TowerType};

verus! {

/// The whole mutable state of a run.  All shared state is owned here
/// and mutated only through the controller's operations.
pub struct GameController {
    pub settings: Settings,
    pub level: Level,
    pub enemies: Vec<Enemy>,
    pub towers: Vec<Tower>,
    pub stats: GameStats,
    pub spawn_timer_ms: u64,
    pub total_time_ms: u64,
    pub enemies_to_spawn: u32,
    pub game_over: bool,
    pub rng: rand::rngs::StdRng,
}

/// Every enemy is well-formed with respect to the path.
pub open spec fn enemies_wf(enemies: Seq<Enemy>, path_len: int) -> bool {
    forall|i: int| 0 <= i < enemies.len() ==> (#[trigger] enemies[i]).wf(path_len)
}

/// Every tower stands inside the grid, off the path, and has not
/// fired in the future.
pub open spec fn towers_wf(towers: Seq<Tower>, width: usize, height: usize, path: Seq<Point>,
    now: u64) -> bool {
    forall|i: int|
        0 <= i < towers.len() ==> {
            &&& in_bounds((#[trigger] towers[i]).position, width, height)
            &&& !path.contains(towers[i].position)
            &&& towers[i].last_fire_ms <= now
        }
}

/// One tower's shots as deferred damage events.
pub open spec fn spec_fire_events(t: Tower, enemies: Seq<Enemy>, path: Seq<Point>) -> Seq<
    DamageEvent,
> {
    t.spec_targets(enemies, path).map_values(|j: usize| DamageEvent { target: j, amount: t.damage })
}

/// The firing phase over a tower list: each ready tower fires at the
/// pre-damage, pre-movement enemy snapshot and records `now` as its
/// last shot; events accumulate in tower order.
pub open spec fn spec_fire(towers: Seq<Tower>, enemies: Seq<Enemy>, path: Seq<Point>, now: u64) -> (
    Seq<Tower>,
    Seq<DamageEvent>,
)
    decreases towers.len(),
{
    if towers.len() == 0 {
        (Seq::empty(), Seq::empty())
    } else {
        let t = towers[0];
        let rest = spec_fire(towers.drop_first(), enemies, path, now);
        if t.can_fire_spec(now) {
            (seq![Tower { last_fire_ms: now, ..t }] + rest.0,
            spec_fire_events(t, enemies, path) + rest.1)
        } else {
            (seq![t] + rest.0, rest.1)
        }
    }
}

/// One enemy after the movement phase: accumulated progress advances
/// by the tick's budget, capped at the end of the path.
pub open spec fn spec_advanced(e: Enemy, path_len: int, dt_ms: u32) -> Enemy {
    let t1 = stepped(e.total_mu(), budget_mu(e.speed, dt_ms), (path_len - 1) * (CELL_MU as int));
    Enemy {
        path_index: (t1 / (CELL_MU as int)) as usize,
        progress: (t1 % (CELL_MU as int)) as u32,
        ..e
    }
}

pub open spec fn spec_move(enemies: Seq<Enemy>, path_len: int, dt_ms: u32) -> Seq<Enemy> {
    enemies.map_values(|e: Enemy| spec_advanced(e, path_len, dt_ms))
}

/// The cleanup phase, processed in list order: a dead enemy is
/// removed, crediting its tier reward and one kill; a live enemy on
/// the terminal node is removed under the breach policy (ending the
/// run, despawning silently, or costing money floored at zero); all
/// others stay.  Returns the survivors, the stats, and whether a
/// breach ended the run.
pub open spec fn spec_cleanup(enemies: Seq<Enemy>, path_len: int, stats: GameStats,
    policy: BreachPolicy, penalty: u32) -> (Seq<Enemy>, GameStats, bool)
    decreases enemies.len(),
{
    if enemies.len() == 0 {
        (Seq::empty(), stats, false)
    } else {
        let e = enemies[0];
        if e.health == 0 {
            let credited = GameStats {
                money: (stats.money + Enemy::spec_reward(e.enemy_type)) as u32,
                wave: stats.wave,
                enemies_killed: (stats.enemies_killed + 1) as u32,
            };
            spec_cleanup(enemies.drop_first(), path_len, credited, policy, penalty)
        } else if e.path_index == path_len - 1 {
            match policy {
                BreachPolicy::EndGame => {
                    let rest = spec_cleanup(enemies.drop_first(), path_len, stats, policy, penalty);
                    (rest.0, rest.1, true)
                },
                BreachPolicy::Despawn => spec_cleanup(
                    enemies.drop_first(),
                    path_len,
                    stats,
                    policy,
                    penalty,
                ),
                BreachPolicy::MoneyPenalty => {
                    let fined = GameStats {
                        money: if penalty >= stats.money {
                            0u32
                        } else {
                            (stats.money - penalty) as u32
                        },
                        wave: stats.wave,
                        enemies_killed: stats.enemies_killed,
                    };
                    spec_cleanup(enemies.drop_first(), path_len, fined, policy, penalty)
                },
            }
        } else {
            let rest = spec_cleanup(enemies.drop_first(), path_len, stats, policy, penalty);
            (seq![e] + rest.0, rest.1, rest.2)
        }
    }
}

/// The spawn phase: the timer accumulates the tick; when it reaches
/// the interval and the wave still has a quota, one enemy of the
/// given tier spawns at the path start and the timer resets.
pub open spec fn spec_spawn(enemies: Seq<Enemy>, timer_ms: u64, remaining: u32, dt_ms: u32,
    interval_ms: u32, tier: EnemyType) -> (Seq<Enemy>, u64, u32) {
    let t1 = (timer_ms + dt_ms) as u64;
    if remaining > 0 && t1 >= interval_ms {
        (enemies.push(Enemy::spec_new(tier)), 0u64, (remaining - 1) as u32)
    } else {
        (enemies, t1, remaining)
    }
}

/// The wave phase: once the quota is exhausted and the field is
/// clear, the next wave starts with quota `wave * factor` and the
/// completion bonus is credited.
pub open spec fn spec_wave(live: int, stats: GameStats, remaining: u32, bonus: u32, factor: u32) -> (
    GameStats,
    u32,
) {
    if remaining == 0 && live == 0 {
        (GameStats {
            money: (stats.money + bonus) as u32,
            wave: (stats.wave + 1) as u32,
            enemies_killed: stats.enemies_killed,
        }, ((stats.wave + 1) * factor) as u32)
    } else {
        (stats, remaining)
    }
}

/// One whole tick over the controller's state: the fields after
/// `step(dt_ms, tier)` as a tuple (enemies, towers, stats, spawn
/// timer, total time, remaining quota, game over).  A finished run is
/// left untouched.
pub open spec fn spec_step(pre: GameController, dt_ms: u32, tier: EnemyType) -> (
    Seq<Enemy>,
    Seq<Tower>,
    GameStats,
    u64,
    u64,
    u32,
    bool,
) {
    if pre.game_over {
        (pre.enemies@, pre.towers@, pre.stats, pre.spawn_timer_ms, pre.total_time_ms,
        pre.enemies_to_spawn, true)
    } else {
        let now = (pre.total_time_ms + dt_ms) as u64;
        let path_len = pre.level.path@.len() as int;
        let fired = spec_fire(pre.towers@, pre.enemies@, pre.level.path@, now);
        let damaged = spec_apply_events(pre.enemies@, fired.1);
        let moved = spec_move(damaged, path_len, dt_ms);
        let cleaned = spec_cleanup(moved, path_len, pre.stats, pre.settings.breach_policy,
            pre.settings.breach_penalty);
        let spawned = spec_spawn(cleaned.0, pre.spawn_timer_ms, pre.enemies_to_spawn, dt_ms,
            pre.settings.spawn_interval_ms, tier);
        let waved = spec_wave(spawned.0.len() as int, cleaned.1, spawned.2,
            pre.settings.wave_bonus, pre.settings.wave_quota_factor);
        (spawned.0, fired.0, waved.0, spawned.1, now, waved.1, cleaned.2)
    }
}

/// `post` is exactly `pre` advanced by one `step(dt_ms, tier)` tick;
/// the immutable level and settings carry over unchanged.
pub open spec fn step_rel(pre: GameController, post: GameController, dt_ms: u32,
    tier: EnemyType) -> bool {
    let r = spec_step(pre, dt_ms, tier);
    &&& post.enemies@ == r.0
    &&& post.towers@ == r.1
    &&& post.stats == r.2
    &&& post.spawn_timer_ms == r.3
    &&& post.total_time_ms == r.4
    &&& post.enemies_to_spawn == r.5
    &&& post.game_over == r.6
    &&& post.settings == pre.settings
    &&& post.level.width == pre.level.width
    &&& post.level.height == pre.level.height
    &&& post.level.start == pre.level.start
    &&& post.level.end == pre.level.end
    &&& post.level.path@ == pre.level.path@
    &&& post.level.waypoints@ == pre.level.waypoints@
}

impl GameController {
    /// The controller's invariant: valid settings, a well-formed
    /// level of the configured size, well-formed enemies and towers,
    /// and monotone clocks.
    pub open spec fn wf(self) -> bool {
        &&& self.settings.valid()
        &&& self.level.wf()
        &&& self.level.width == self.settings.grid_width
        &&& self.level.height == self.settings.grid_height
        &&& enemies_wf(self.enemies@, self.level.path@.len() as int)
        &&& towers_wf(self.towers@, self.level.width, self.level.height, self.level.path@,
            self.total_time_ms)
        &&& self.spawn_timer_ms <= self.total_time_ms
        &&& self.stats.wave >= 1
    }

    /// The machine limits one tick needs: the clock, the money and
    /// kill counters and the next wave's quota must fit their types.
    pub open spec fn step_reqs(self, dt_ms: u32) -> bool {
        &&& self.wf()
        &&& self.total_time_ms + dt_ms <= u64::MAX
        &&& self.stats.money + MAX_REWARD * self.enemies@.len() + self.settings.wave_bonus
            <= u32::MAX
        &&& self.stats.enemies_killed + self.enemies@.len() <= u32::MAX
        &&& self.stats.wave + 1 <= u32::MAX
        &&& (self.stats.wave + 1) * self.settings.wave_quota_factor <= u32::MAX
    }

    /// Starts a run on a freshly generated level; the seed fixes both
    /// the level and the spawn tiers.
    pub fn new(settings: Settings, seed: u64) -> (r: Result<GameController, LevelGenError>)
        requires
            settings.valid(),
        ensures
            match r {
                Ok(c) => {
                    &&& c.wf()
                    &&& c.settings == settings
                    &&& c.stats == (GameStats {
                        money: settings.initial_money,
                        wave: 1u32,
                        enemies_killed: 0u32,
                    })
                    &&& c.enemies@.len() == 0
                    &&& c.towers@.len() == 0
                    &&& c.spawn_timer_ms == 0
                    &&& c.total_time_ms == 0
                    &&& c.enemies_to_spawn == settings.wave_quota_factor
                    &&& !c.game_over
                },
                Err(e) => e == LevelGenError::RetriesExhausted,
            },
    {
        match Level::new(&settings, seed) {
            Ok(level) => Ok(
                GameController {
                    settings,
                    level,
                    enemies: Vec::new(),
                    towers: Vec::new(),
                    stats: GameStats::new(settings.initial_money),
                    spawn_timer_ms: 0,
                    total_time_ms: 0,
                    enemies_to_spawn: settings.wave_quota_factor,
                    game_over: false,
                    rng: rng_from_seed(seed ^ 0x9e37_79b9_7f4a_7c15),
                },
            ),
            Err(e) => Err(e),
        }
    }

    /// Starts a run on an explicit level, e.g. one built with
    /// `Level::from_parts`.
    pub fn with_level(settings: Settings, level: Level, seed: u64) -> (c: GameController)
        requires
            settings.valid(),
            level.wf(),
            level.width == settings.grid_width,
            level.height == settings.grid_height,
        ensures
            c.wf(),
            c.settings == settings,
            c.level.path@ == level.path@,
            c.level.width == level.width,
            c.level.height == level.height,
            c.stats == (GameStats {
                money: settings.initial_money,
                wave: 1u32,
                enemies_killed: 0u32,
            }),
            c.enemies@.len() == 0,
            c.towers@.len() == 0,
            c.spawn_timer_ms == 0,
            c.total_time_ms == 0,
            c.enemies_to_spawn == settings.wave_quota_factor,
            !c.game_over,
    {
        GameController {
            settings,
            level,
            enemies: Vec::new(),
            towers: Vec::new(),
            stats: GameStats::new(settings.initial_money),
            spawn_timer_ms: 0,
            total_time_ms: 0,
            enemies_to_spawn: settings.wave_quota_factor,
            game_over: false,
            rng: rng_from_seed(seed ^ 0x9e37_79b9_7f4a_7c15),
        }
    }

    /// Whether a cell lies on the enemy path.
    pub fn is_position_on_path(&self, position: Point) -> (r: bool)
        ensures
            r == self.level.path@.contains(position),
    {
        point_in_vec(&self.level.path, position)
    }

    /// Places a tower: rejected, with no effect at all, when the cell
    /// is outside the grid or on the path, or when the money does not
    /// cover the archetype's cost; otherwise the cost is deducted and
    /// the tower appended.
    pub fn add_tower(&mut self, position: Point, tower_type: TowerType) -> (ok: bool)
        requires
            old(self).wf(),
        ensures
            final(self).wf(),
            ok == (in_bounds(position, old(self).level.width, old(self).level.height)
                && !old(self).level.path@.contains(position) && old(self).stats.money
                >= Tower::spec_cost(tower_type)),
            ok ==> final(self).towers@ == old(self).towers@.push(
                Tower::spec_new(tower_type, position),
            ) && final(self).stats == (GameStats {
                money: (old(self).stats.money - Tower::spec_cost(tower_type)) as u32,
                wave: old(self).stats.wave,
                enemies_killed: old(self).stats.enemies_killed,
            }),
            !ok ==> final(self).towers@ == old(self).towers@ && final(self).stats == old(
                self,
            ).stats,
            final(self).enemies@ == old(self).enemies@,
            final(self).level.path@ == old(self).level.path@,
            final(self).level.width == old(self).level.width,
            final(self).level.height == old(self).level.height,
            final(self).settings == old(self).settings,
            final(self).spawn_timer_ms == old(self).spawn_timer_ms,
            final(self).total_time_ms == old(self).total_time_ms,
            final(self).enemies_to_spawn == old(self).enemies_to_spawn,
            final(self).game_over == old(self).game_over,
    {
        if !(position.x < self.level.width && position.y < self.level.height) {
            return false;
        }
        if point_in_vec(&self.level.path, position) {
            return false;
        }
        let cost = Tower::cost(tower_type);
        if self.stats.spend_money(cost) {
            self.towers.push(Tower::new(tower_type, position));
            true
        } else {
            false
        }
    }

    /// Checks at runtime that one tick's machine limits hold, so an
    /// unverified caller can guard `step` and `update`.
    pub fn can_step(&self, dt_ms: u32) -> (r: bool)
        requires
            self.wf(),
        ensures
            r == self.step_reqs(dt_ms),
    {
        let n = self.enemies.len();
        proof {
            assert((MAX_REWARD as int) * (n as int) <= 30 * 0xffff_ffff_ffff_ffffu64)
                by (nonlinear_arith)
                requires
                    MAX_REWARD == 30,
                    n <= 0xffff_ffff_ffff_ffffu64,
            ;
            assert((self.stats.wave as int + 1) * (self.settings.wave_quota_factor as int)
                < 0x1_0000_0000 * 0x1_0000_0000) by (nonlinear_arith)
                requires
                    self.stats.wave < 0x1_0000_0000,
                    self.settings.wave_quota_factor < 0x1_0000_0000,
            ;
        }
        let time_ok = dt_ms as u64 <= u64::MAX - self.total_time_ms;
        let money_ok = (self.stats.money as u128) + (MAX_REWARD as u128) * (n as u128)
            + (self.settings.wave_bonus as u128) <= u32::MAX as u128;
        let kills_ok = (self.stats.enemies_killed as u128) + (n as u128) <= u32::MAX as u128;
        let wave_ok = self.stats.wave < u32::MAX && ((self.stats.wave as u64 + 1)
            * (self.settings.wave_quota_factor as u64)) <= u32::MAX as u64;
        time_ok && money_ok && kills_ok && wave_ok
    }

    /// The firing phase: collects every ready tower's shots against
    /// the current enemy snapshot and stamps those towers' cooldowns.
    fn fire_towers(&mut self, now: u64) -> (events: Vec<DamageEvent>)
        requires
            old(self).wf(),
        ensures
            final(self).towers@ == spec_fire(old(self).towers@, old(self).enemies@,
                old(self).level.path@, now).0,
            events@ == spec_fire(old(self).towers@, old(self).enemies@, old(self).level.path@,
                now).1,
            final(self).enemies@ == old(self).enemies@,
            final(self).level == old(self).level,
            final(self).settings == old(self).settings,
            final(self).stats == old(self).stats,
            final(self).spawn_timer_ms == old(self).spawn_timer_ms,
            final(self).total_time_ms == old(self).total_time_ms,
            final(self).enemies_to_spawn == old(self).enemies_to_spawn,
            final(self).game_over == old(self).game_over,
            towers_wf(final(self).towers@, old(self).level.width, old(self).level.height,
                old(self).level.path@, if now >= old(self).total_time_ms {
                    now
                } else {
                    old(self).total_time_ms
                }),
    {
        let ghost towers0 = self.towers@;
        let ghost enemies0 = self.enemies@;
        let ghost path0 = self.level.path@;
        let ghost full = spec_fire(towers0, enemies0, path0, now);
        let mut events: Vec<DamageEvent> = Vec::new();
        let mut i: usize = 0;
        proof {
            assert(towers0.skip(0) =~= towers0);
            assert(self.towers@.take(0int) =~= Seq::<Tower>::empty());
            assert(events@ =~= Seq::<DamageEvent>::empty());
        }
        while i < self.towers.len()
            invariant
                i <= self.towers@.len(),
                self.towers@.len() == towers0.len(),
                self.enemies@ == enemies0,
                self.level == old(self).level,
                self.level.path@ == path0,
                self.settings == old(self).settings,
                self.stats == old(self).stats,
                self.spawn_timer_ms == old(self).spawn_timer_ms,
                self.total_time_ms == old(self).total_time_ms,
                self.enemies_to_spawn == old(self).enemies_to_spawn,
                self.game_over == old(self).game_over,
                old(self).wf(),
                towers0 == old(self).towers@,
                enemies0 == old(self).enemies@,
                path0 == old(self).level.path@,
                full == spec_fire(towers0, enemies0, path0, now),
                self.towers@.skip(i as int) == towers0.skip(i as int),
                full.0 == self.towers@.take(i as int) + spec_fire(towers0.skip(i as int),
                    enemies0, path0, now).0,
                full.1 == events@ + spec_fire(towers0.skip(i as int), enemies0, path0, now).1,
                forall|k: int|
                    0 <= k < i ==> {
                        &&& in_bounds((#[trigger] self.towers@[k]).position, old(self).level.width,
                            old(self).level.height)
                        &&& !path0.contains(self.towers@[k].position)
                        &&& (self.towers@[k].last_fire_ms <= old(self).total_time_ms
                            || self.towers@[k].last_fire_ms == now)
                    },
            decreases self.towers@.len() - i,
        {
            let ghost rest = towers0.skip(i as int);
            proof {
                assert(rest.len() > 0);
                assert(rest[0] == towers0[i as int]);
                assert(rest.drop_first() =~= towers0.skip(i as int + 1));
                assert(self.towers@[i as int] == rest[0]);
            }
            let tower = self.towers[i];
            if tower.can_fire(now) {
                proof {
                    assert(path_in_bounds(path0, MAX_DIM, MAX_DIM)) by {
                        assert forall|k: int| 0 <= k < path0.len() implies in_bounds(
                            #[trigger] path0[k],
                            MAX_DIM,
                            MAX_DIM,
                        ) by {
                            assert(in_bounds(path0[k], old(self).level.width,
                                old(self).level.height));
                        }
                    }
                    assert(in_bounds(tower.position, MAX_DIM, MAX_DIM)) by {
                        assert(in_bounds(tower.position, old(self).level.width,
                            old(self).level.height));
                    }
                }
                let targets = tower.find_targets(&self.enemies, &self.level.path);
                let ghost events_pre = events@;
                let mut j: usize = 0;
                proof {
                    assert(targets@.take(0int).map_values(
                        |x: usize| DamageEvent { target: x, amount: tower.damage },
                    ) =~= Seq::<DamageEvent>::empty());
                }
                while j < targets.len()
                    invariant
                        j <= targets@.len(),
                        events@ == events_pre + targets@.take(j as int).map_values(
                            |x: usize| DamageEvent { target: x, amount: tower.damage },
                        ),
                    decreases targets@.len() - j,
                {
                    let tgt = targets[j];
                    events.push(DamageEvent { target: tgt, amount: tower.damage });
                    proof {
                        assert(targets@.take(j + 1).map_values(
                            |x: usize| DamageEvent { target: x, amount: tower.damage },
                        ) =~= targets@.take(j as int).map_values(
                            |x: usize| DamageEvent { target: x, amount: tower.damage },
                        ).push(DamageEvent { target: targets@[j as int], amount: tower.damage }));
                    }
                    j = j + 1;
                }
                let mut stamped = tower;
                stamped.last_fire_ms = now;
                self.towers.set(i, stamped);
                proof {
                    assert(targets@.take(targets@.len() as int) =~= targets@);
                    assert(events@ == events_pre + spec_fire_events(tower, enemies0, path0));
                    assert(spec_fire(rest, enemies0, path0, now).0 == seq![stamped]
                        + spec_fire(rest.drop_first(), enemies0, path0, now).0);
                    assert(self.towers@.take(i as int + 1) =~= self.towers@.take(i as int).push(
                        stamped,
                    ));
                    assert(self.towers@.take(i as int).push(stamped) + spec_fire(
                        towers0.skip(i as int + 1),
                        enemies0,
                        path0,
                        now,
                    ).0 =~= self.towers@.take(i as int) + (seq![stamped] + spec_fire(
                        towers0.skip(i as int + 1),
                        enemies0,
                        path0,
                        now,
                    ).0));
                    assert(events_pre + (spec_fire_events(tower, enemies0, path0) + spec_fire(
                        towers0.skip(i as int + 1),
                        enemies0,
                        path0,
                        now,
                    ).1) =~= (events_pre + spec_fire_events(tower, enemies0, path0)) + spec_fire(
                        towers0.skip(i as int + 1),
                        enemies0,
                        path0,
                        now,
                    ).1);
                    assert(self.towers@.skip(i as int + 1) =~= towers0.skip(i as int + 1));
                }
            } else {
                proof {
                    assert(spec_fire(rest, enemies0, path0, now).0 == seq![tower] + spec_fire(
                        rest.drop_first(),
                        enemies0,
                        path0,
                        now,
                    ).0);
                    assert(self.towers@.take(i as int + 1) =~= self.towers@.take(i as int).push(
                        tower,
                    ));
                    assert(self.towers@.take(i as int).push(tower) + spec_fire(
                        towers0.skip(i as int + 1),
                        enemies0,
                        path0,
                        now,
                    ).0 =~= self.towers@.take(i as int) + (seq![tower] + spec_fire(
                        towers0.skip(i as int + 1),
                        enemies0,
                        path0,
                        now,
                    ).0));
                }
            }
            i = i + 1;
        }
        proof {
            assert(self.towers@.take(self.towers@.len() as int) =~= self.towers@);
            assert(spec_fire(towers0.skip(towers0.len() as int), enemies0, path0, now).0
                =~= Seq::<Tower>::empty());
            assert(self.towers@ + Seq::<Tower>::empty() =~= self.towers@);
            assert(events@ + Seq::<DamageEvent>::empty() =~= events@);
        }
        events
    }

    /// The movement phase: every enemy advances by the tick's budget.
    fn move_enemies(&mut self, dt_ms: u32)
        requires
            old(self).level.path@.len() >= 1,
            enemies_wf(old(self).enemies@, old(self).level.path@.len() as int),
        ensures
            final(self).enemies@ == spec_move(old(self).enemies@, old(self).level.path@.len() as int,
                dt_ms),
            enemies_wf(final(self).enemies@, old(self).level.path@.len() as int),
            final(self).towers@ == old(self).towers@,
            final(self).level == old(self).level,
            final(self).settings == old(self).settings,
            final(self).stats == old(self).stats,
            final(self).spawn_timer_ms == old(self).spawn_timer_ms,
            final(self).total_time_ms == old(self).total_time_ms,
            final(self).enemies_to_spawn == old(self).enemies_to_spawn,
            final(self).game_over == old(self).game_over,
    {
        let ghost enemies0 = self.enemies@;
        let ghost path_len = self.level.path@.len() as int;
        let path_len_exec = self.level.path.len();
        let mut i: usize = 0;
        while i < self.enemies.len()
            invariant
                i <= self.enemies@.len(),
                self.enemies@.len() == enemies0.len(),
                path_len == old(self).level.path@.len() as int,
                path_len_exec as int == path_len,
                path_len >= 1,
                enemies_wf(enemies0, path_len),
                self.towers@ == old(self).towers@,
                self.level == old(self).level,
                self.settings == old(self).settings,
                self.stats == old(self).stats,
                self.spawn_timer_ms == old(self).spawn_timer_ms,
                self.total_time_ms == old(self).total_time_ms,
                self.enemies_to_spawn == old(self).enemies_to_spawn,
                self.game_over == old(self).game_over,
                forall|k: int| i <= k < enemies0.len() ==> self.enemies@[k] == enemies0[k],
                forall|k: int|
                    0 <= k < i ==> self.enemies@[k] == spec_advanced(enemies0[k], path_len, dt_ms)
                        && (#[trigger] self.enemies@[k]).wf(path_len),
            decreases self.enemies@.len() - i,
        {
            let mut e = self.enemies[i];
            e.update(path_len_exec, dt_ms);
            proof {
                let t1 = stepped(enemies0[i as int].total_mu(), budget_mu(enemies0[i as int].speed,
                    dt_ms), (path_len - 1) * (CELL_MU as int));
                assert(e.total_mu() == t1);
                assert(e.path_index * (CELL_MU as int) + e.progress == t1);
                vstd::arithmetic::div_mod::lemma_fundamental_div_mod_converse_div(t1,
                    CELL_MU as int, e.path_index as int, e.progress as int);
                vstd::arithmetic::div_mod::lemma_fundamental_div_mod_converse_mod(t1,
                    CELL_MU as int, e.path_index as int, e.progress as int);
                assert(e == spec_advanced(enemies0[i as int], path_len, dt_ms));
            }
            self.enemies.set(i, e);
            i = i + 1;
        }
        proof {
            assert(self.enemies@ =~= spec_move(enemies0, path_len, dt_ms));
        }
    }

    /// The cleanup phase: removes dead and breached enemies, credits
    /// rewards and kills, applies the breach policy, and may end the
    /// run.
    fn cleanup_enemies(&mut self)
        requires
            old(self).level.path@.len() >= 1,
            old(self).stats.money + MAX_REWARD * old(self).enemies@.len() <= u32::MAX,
            old(self).stats.enemies_killed + old(self).enemies@.len() <= u32::MAX,
        ensures
            ({
                let r = spec_cleanup(old(self).enemies@, old(self).level.path@.len() as int,
                    old(self).stats, old(self).settings.breach_policy,
                    old(self).settings.breach_penalty);
                &&& final(self).enemies@ == r.0
                &&& final(self).stats == r.1
                &&& final(self).game_over == (old(self).game_over || r.2)
            }),
            final(self).stats.money <= old(self).stats.money + MAX_REWARD * old(
                self,
            ).enemies@.len(),
            final(self).stats.wave == old(self).stats.wave,
            final(self).towers@ == old(self).towers@,
            final(self).level == old(self).level,
            final(self).settings == old(self).settings,
            final(self).spawn_timer_ms == old(self).spawn_timer_ms,
            final(self).total_time_ms == old(self).total_time_ms,
            final(self).enemies_to_spawn == old(self).enemies_to_spawn,
    {
        let ghost enemies0 = self.enemies@;
        let ghost stats0 = self.stats;
        let ghost path_len = self.level.path@.len() as int;
        let ghost policy = self.settings.breach_policy;
        let ghost penalty = self.settings.breach_penalty;
        let ghost full = spec_cleanup(enemies0, path_len, stats0, policy, penalty);
        let path_len_exec = self.level.path.len();
        let mut kept: Vec<Enemy> = Vec::new();
        let mut over = false;
        let mut i: usize = 0;
        proof {
            assert(enemies0.skip(0) =~= enemies0);
            assert(kept@ =~= Seq::<Enemy>::empty());
        }
        while i < self.enemies.len()
            invariant
                i <= self.enemies@.len(),
                self.enemies@ == enemies0,
                path_len == old(self).level.path@.len() as int,
                path_len_exec as int == path_len,
                path_len >= 1,
                policy == self.settings.breach_policy,
                penalty == self.settings.breach_penalty,
                stats0 == old(self).stats,
                enemies0 == old(self).enemies@,
                full == spec_cleanup(enemies0, path_len, stats0, policy, penalty),
                stats0.money + MAX_REWARD * enemies0.len() <= u32::MAX,
                stats0.enemies_killed + enemies0.len() <= u32::MAX,
                self.stats.money <= stats0.money + MAX_REWARD * i,
                self.stats.enemies_killed <= stats0.enemies_killed + i,
                self.stats.wave == stats0.wave,
                full.0 == kept@ + spec_cleanup(enemies0.skip(i as int), path_len, self.stats,
                    policy, penalty).0,
                full.1 == spec_cleanup(enemies0.skip(i as int), path_len, self.stats, policy,
                    penalty).1,
                full.2 == (over || spec_cleanup(enemies0.skip(i as int), path_len, self.stats,
                    policy, penalty).2),
                self.towers@ == old(self).towers@,
                self.level == old(self).level,
                self.settings == old(self).settings,
                self.spawn_timer_ms == old(self).spawn_timer_ms,
                self.total_time_ms == old(self).total_time_ms,
                self.enemies_to_spawn == old(self).enemies_to_spawn,
                self.game_over == old(self).game_over,
            decreases self.enemies@.len() - i,
        {
            let ghost rest = enemies0.skip(i as int);
            proof {
                assert(rest.len() > 0);
                assert(rest[0] == enemies0[i as int]);
                assert(rest.drop_first() =~= enemies0.skip(i as int + 1));
            }
            let e = self.enemies[i];
            if e.is_dead() {
                let r = e.reward();
                self.stats.add_money(r);
                self.stats.enemy_killed();
            } else if e.reached_end(path_len_exec) {
                match self.settings.breach_policy {
                    BreachPolicy::EndGame => {
                        over = true;
                    },
                    BreachPolicy::Despawn => {},
                    BreachPolicy::MoneyPenalty => {
                        let p = self.settings.breach_penalty;
                        if p >= self.stats.money {
                            self.stats.money = 0;
                        } else {
                            self.stats.money = self.stats.money - p;
                        }
                    },
                }
            } else {
                kept.push(e);
                proof {
                    assert(kept@ + spec_cleanup(enemies0.skip(i as int + 1), path_len, self.stats,
                        policy, penalty).0 =~= kept@.drop_last() + (seq![e] + spec_cleanup(
                        enemies0.skip(i as int + 1),
                        path_len,
                        self.stats,
                        policy,
                        penalty,
                    ).0));
                }
            }
            i = i + 1;
        }
        proof {
            assert(enemies0.skip(enemies0.len() as int) =~= Seq::<Enemy>::empty());
            assert(kept@ + Seq::<Enemy>::empty() =~= kept@);
        }
        self.enemies = kept;
        self.game_over = self.game_over || over;
    }

    /// The spawn phase of one tick.
    fn spawn_tick(&mut self, dt_ms: u32, tier: EnemyType)
        requires
            old(self).spawn_timer_ms + dt_ms <= u64::MAX,
        ensures
            ({
                let r = spec_spawn(old(self).enemies@, old(self).spawn_timer_ms,
                    old(self).enemies_to_spawn, dt_ms, old(self).settings.spawn_interval_ms, tier);
                &&& final(self).enemies@ == r.0
                &&& final(self).spawn_timer_ms == r.1
                &&& final(self).enemies_to_spawn == r.2
            }),
            final(self).towers@ == old(self).towers@,
            final(self).level == old(self).level,
            final(self).settings == old(self).settings,
            final(self).stats == old(self).stats,
            final(self).total_time_ms == old(self).total_time_ms,
            final(self).game_over == old(self).game_over,
    {
        self.spawn_timer_ms = self.spawn_timer_ms + dt_ms as u64;
        if self.enemies_to_spawn > 0 && self.spawn_timer_ms >= self.settings.spawn_interval_ms
            as u64 {
            self.enemies.push(Enemy::new(tier));
            self.enemies_to_spawn = self.enemies_to_spawn - 1;
            self.spawn_timer_ms = 0;
        }
    }

    /// The wave-completion phase of one tick.
    fn wave_tick(&mut self)
        requires
            old(self).stats.wave + 1 <= u32::MAX,
            (old(self).stats.wave + 1) * old(self).settings.wave_quota_factor <= u32::MAX,
            old(self).stats.money + old(self).settings.wave_bonus <= u32::MAX,
        ensures
            ({
                let r = spec_wave(old(self).enemies@.len() as int, old(self).stats,
                    old(self).enemies_to_spawn, old(self).settings.wave_bonus,
                    old(self).settings.wave_quota_factor);
                &&& final(self).stats == r.0
                &&& final(self).enemies_to_spawn == r.1
            }),
            final(self).enemies@ == old(self).enemies@,
            final(self).towers@ == old(self).towers@,
            final(self).level == old(self).level,
            final(self).settings == old(self).settings,
            final(self).spawn_timer_ms == old(self).spawn_timer_ms,
            final(self).total_time_ms == old(self).total_time_ms,
            final(self).game_over == old(self).game_over,
    {
        if self.enemies_to_spawn == 0 && self.enemies.len() == 0 {
            self.stats.next_wave();
            self.stats.add_money(self.settings.wave_bonus);
            self.enemies_to_spawn = self.stats.wave * self.settings.wave_quota_factor;
        }
    }

    /// One deterministic tick with an explicit spawn tier: the exact
    /// per-phase composition in `spec_step` describes every field of
    /// the result.
    pub fn step(&mut self, dt_ms: u32, spawn_tier: EnemyType)
        requires
            old(self).step_reqs(dt_ms),
        ensures
            final(self).wf(),
            step_rel(*old(self), *final(self), dt_ms, spawn_tier),
    {
        if self.game_over {
            return;
        }
        self.total_time_ms = self.total_time_ms + dt_ms as u64;
        let now = self.total_time_ms;
        let events = self.fire_towers(now);
        apply_damage_events(&mut self.enemies, &events);
        proof {
            let path_len = self.level.path@.len() as int;
            assert(enemies_wf(self.enemies@, path_len)) by {
                assert forall|k: int| 0 <= k < self.enemies@.len() implies (
                #[trigger] self.enemies@[k]).wf(path_len) by {
                    assert(old(self).enemies@[k].wf(path_len));
                    crate::combat::lemma_damage_to_nonneg(events@, k);
                }
            }
        }
        self.move_enemies(dt_ms);
        self.cleanup_enemies();
        self.spawn_tick(dt_ms, spawn_tier);
        self.wave_tick();
        proof {
            let pre = *old(self);
            let r = spec_step(pre, dt_ms, spawn_tier);
            let now_g = (pre.total_time_ms + dt_ms) as u64;
            let path_len = pre.level.path@.len() as int;
            let fired = spec_fire(pre.towers@, pre.enemies@, pre.level.path@, now_g);
            let damaged = spec_apply_events(pre.enemies@, fired.1);
            let moved = spec_move(damaged, path_len, dt_ms);
            let cleaned = spec_cleanup(moved, path_len, pre.stats, pre.settings.breach_policy,
                pre.settings.breach_penalty);
            assert(self.enemies@ == r.0);
            assert(self.towers@ == r.1);
            assert(self.stats == r.2);
            assert(self.spawn_timer_ms == r.3);
            assert(self.total_time_ms == r.4);
            assert(self.enemies_to_spawn == r.5);
            assert(self.game_over == r.6);
            assert(self.wf()) by {
                lemma_cleanup_wf(moved, path_len, pre.stats, pre.settings.breach_policy,
                    pre.settings.breach_penalty);
                assert(enemies_wf(cleaned.0, path_len));
                assert forall|k: int| 0 <= k < self.enemies@.len() implies (
                #[trigger] self.enemies@[k]).wf(path_len) by {
                    if k < cleaned.0.len() {
                        assert(self.enemies@[k] == cleaned.0[k]);
                    }
                }
            }
        }
    }

    /// One tick with a randomly drawn spawn tier: behaves exactly as
    /// `step` for some tier.
    pub fn update(&mut self, dt_ms: u32)
        requires
            old(self).step_reqs(dt_ms),
        ensures
            final(self).wf(),
            exists|tier: EnemyType| step_rel(*old(self), *final(self), dt_ms, tier),
    {
        let roll = rand_below(&mut self.rng, 3);
        let tier = if roll == 0 {
            EnemyType::Weak
        } else if roll == 1 {
            EnemyType::Normal
        } else {
            EnemyType::Strong
        };
        self.step(dt_ms, tier);
        proof {
            assert(step_rel(*old(self), *self, dt_ms, tier));
        }
    }
}

/// Cleanup only removes enemies: every survivor was already on the
/// list unchanged, so well-formedness carries over.
pub proof fn lemma_cleanup_wf(
    enemies: Seq<Enemy>,
    path_len: int,
    stats: GameStats,
    policy: BreachPolicy,
    penalty: u32,
)
    requires
        enemies_wf(enemies, path_len),
    ensures
        enemies_wf(spec_cleanup(enemies, path_len, stats, policy, penalty).0, path_len),
    decreases enemies.len(),
{
    if enemies.len() > 0 {
        let e = enemies[0];
        assert(e.wf(path_len));
        assert(enemies_wf(enemies.drop_first(), path_len)) by {
            assert forall|k: int| 0 <= k < enemies.drop_first().len() implies (
            #[trigger] enemies.drop_first()[k]).wf(path_len) by {
                assert(enemies.drop_first()[k] == enemies[k + 1]);
            }
        }
        if e.health == 0 {
            let credited = GameStats {
                money: (stats.money + Enemy::spec_reward(e.enemy_type)) as u32,
                wave: stats.wave,
                enemies_killed: (stats.enemies_killed + 1) as u32,
            };
            lemma_cleanup_wf(enemies.drop_first(), path_len, credited, policy, penalty);
        } else if e.path_index == path_len - 1 {
            match policy {
                BreachPolicy::EndGame => {
                    lemma_cleanup_wf(enemies.drop_first(), path_len, stats, policy, penalty);
                },
                BreachPolicy::Despawn => {
                    lemma_cleanup_wf(enemies.drop_first(), path_len, stats, policy, penalty);
                },
                BreachPolicy::MoneyPenalty => {
                    let fined = GameStats {
                        money: if penalty >= stats.money {
                            0u32
                        } else {
                            (stats.money - penalty) as u32
                        },
                        wave: stats.wave,
                        enemies_killed: stats.enemies_killed,
                    };
                    lemma_cleanup_wf(enemies.drop_first(), path_len, fined, policy, penalty);
                },
            }
        } else {
            lemma_cleanup_wf(enemies.drop_first(), path_len, stats, policy, penalty);
            let rest = spec_cleanup(enemies.drop_first(), path_len, stats, policy, penalty);
            assert forall|k: int| 0 <= k < (seq![e] + rest.0).len() implies (#[trigger] (seq![e]
                + rest.0)[k]).wf(path_len) by {
                if k > 0 {
                    assert((seq![e] + rest.0)[k] == rest.0[k - 1]);
                }
            }
        }
    }
}

/// How many of these enemies are dead.
pub open spec fn dead_count(enemies: Seq<Enemy>) -> int
    decreases enemies.len(),
{
    if enemies.len() == 0 {
        0
    } else {
        (if enemies[0].health == 0 {
            1int
        } else {
            0int
        }) + dead_count(enemies.drop_first())
    }
}

/// Total reward owed for the dead among these enemies.
pub open spec fn reward_total(enemies: Seq<Enemy>) -> int
    decreases enemies.len(),
{
    if enemies.len() == 0 {
        0
    } else {
        (if enemies[0].health == 0 {
            Enemy::spec_reward(enemies[0].enemy_type) as int
        } else {
            0int
        }) + reward_total(enemies.drop_first())
    }
}

/// Economy bookkeeping of one cleanup pass: the kill counter grows by
/// exactly the number of dead enemies, the wave number is untouched,
/// and — when breaches carry no money penalty — the money grows by
/// exactly one reward per dead enemy, each credited once.
pub proof fn lemma_economy_cleanup(
    enemies: Seq<Enemy>,
    path_len: int,
    stats: GameStats,
    policy: BreachPolicy,
    penalty: u32,
)
    requires
        stats.money + reward_total(enemies) <= u32::MAX,
        stats.enemies_killed + dead_count(enemies) <= u32::MAX,
    ensures
        spec_cleanup(enemies, path_len, stats, policy, penalty).1.enemies_killed
            == stats.enemies_killed + dead_count(enemies),
        spec_cleanup(enemies, path_len, stats, policy, penalty).1.wave == stats.wave,
        policy != BreachPolicy::MoneyPenalty ==> spec_cleanup(enemies, path_len, stats, policy,
            penalty).1.money == stats.money + reward_total(enemies),
    decreases enemies.len(),
{
    lemma_reward_total_nonneg(enemies);
    lemma_dead_count_nonneg(enemies);
    if enemies.len() > 0 {
        let e = enemies[0];
        lemma_reward_total_nonneg(enemies.drop_first());
        lemma_dead_count_nonneg(enemies.drop_first());
        if e.health == 0 {
            let credited = GameStats {
                money: (stats.money + Enemy::spec_reward(e.enemy_type)) as u32,
                wave: stats.wave,
                enemies_killed: (stats.enemies_killed + 1) as u32,
            };
            lemma_economy_cleanup(enemies.drop_first(), path_len, credited, policy, penalty);
        } else if e.path_index == path_len - 1 {
            match policy {
                BreachPolicy::EndGame => {
                    lemma_economy_cleanup(enemies.drop_first(), path_len, stats, policy, penalty);
                },
                BreachPolicy::Despawn => {
                    lemma_economy_cleanup(enemies.drop_first(), path_len, stats, policy, penalty);
                },
                BreachPolicy::MoneyPenalty => {
                    let fined = GameStats {
                        money: if penalty >= stats.money {
                            0u32
                        } else {
                            (stats.money - penalty) as u32
                        },
                        wave: stats.wave,
                        enemies_killed: stats.enemies_killed,
                    };
                    lemma_economy_cleanup(enemies.drop_first(), path_len, fined, policy, penalty);
                },
            }
        } else {
            lemma_economy_cleanup(enemies.drop_first(), path_len, stats, policy, penalty);
        }
    }
}

proof fn lemma_reward_total_nonneg(enemies: Seq<Enemy>)
    ensures
        0 <= reward_total(enemies) <= MAX_REWARD * enemies.len(),
    decreases enemies.len(),
{
    if enemies.len() > 0 {
        lemma_reward_total_nonneg(enemies.drop_first());
    }
}

proof fn lemma_dead_count_nonneg(enemies: Seq<Enemy>)
    ensures
        0 <= dead_count(enemies) <= enemies.len(),
    decreases enemies.len(),
{
    if enemies.len() > 0 {
        lemma_dead_count_nonneg(enemies.drop_first());
    }
}

} // verus!
