use tower_defense::controller::GameController;
use tower_defense::enemy::{Enemy, EnemyType};
use tower_defense::level::{Level, Point};
use tower_defense::settings::{BreachPolicy, Settings};
use tower_defense::tower::TowerType;

fn small_settings() -> Settings {
    let mut s = Settings::new();
    s.grid_width = 10;
    s.grid_height = 10;
    s
}

fn straight_controller(settings: Settings) -> GameController {
    let path: Vec<Point> = (0..10).map(|i| Point { x: i, y: 0 }).collect();
    let level = Level::from_parts(10, 10, path, Vec::new()).unwrap();
    GameController::with_level(settings, level, 99)
}

#[test]
fn fresh_run_state() {
    let c = straight_controller(small_settings());
    assert_eq!(c.stats.money, 500);
    assert_eq!(c.stats.wave, 1);
    assert_eq!(c.enemies_to_spawn, 10);
    assert!(c.enemies.is_empty());
    assert!(c.towers.is_empty());
    assert!(!c.game_over);
}

// Placement rejection: a path cell is always refused with no effect
// on money or the tower list.
#[test]
fn placement_on_path_is_rejected() {
    let mut c = straight_controller(small_settings());
    for i in 0..10 {
        assert!(!c.add_tower(Point { x: i, y: 0 }, TowerType::Basic));
    }
    assert_eq!(c.stats.money, 500);
    assert!(c.towers.is_empty());
}

#[test]
fn placement_outside_grid_is_rejected() {
    let mut c = straight_controller(small_settings());
    assert!(!c.add_tower(Point { x: 10, y: 5 }, TowerType::Basic));
    assert!(!c.add_tower(Point { x: 5, y: 10 }, TowerType::Basic));
    assert_eq!(c.stats.money, 500);
    assert!(c.towers.is_empty());
}

// Placement rejection: insufficient funds leave the state untouched.
#[test]
fn placement_without_funds_is_rejected() {
    let mut settings = small_settings();
    settings.initial_money = 99;
    let mut c = straight_controller(settings);
    assert!(!c.add_tower(Point { x: 5, y: 5 }, TowerType::Basic));
    assert_eq!(c.stats.money, 99);
    assert!(c.towers.is_empty());
}

#[test]
fn placement_deducts_cost_once() {
    let mut c = straight_controller(small_settings());
    assert!(c.add_tower(Point { x: 0, y: 1 }, TowerType::Basic));
    assert_eq!(c.stats.money, 400);
    assert!(c.add_tower(Point { x: 1, y: 1 }, TowerType::Sniper));
    assert_eq!(c.stats.money, 250);
    assert_eq!(c.towers.len(), 2);
    assert_eq!(c.towers[0].position, Point { x: 0, y: 1 });
}

#[test]
fn is_position_on_path_matches_path() {
    let c = straight_controller(small_settings());
    assert!(c.is_position_on_path(Point { x: 4, y: 0 }));
    assert!(!c.is_position_on_path(Point { x: 4, y: 1 }));
}

// Economy: two towers killing the same enemy in the same tick credit
// the reward and the kill exactly once.
#[test]
fn kill_credited_once_despite_two_hits() {
    let mut c = straight_controller(small_settings());
    assert!(c.add_tower(Point { x: 0, y: 1 }, TowerType::Basic));
    assert!(c.add_tower(Point { x: 1, y: 1 }, TowerType::Basic));
    assert_eq!(c.stats.money, 300);
    c.enemies.push(Enemy::with_stats(EnemyType::Weak, 5, 0));
    assert!(c.can_step(1000));
    c.step(1000, EnemyType::Weak);
    assert!(c.enemies.is_empty());
    assert_eq!(c.stats.money, 310, "exactly one Weak reward of 10");
    assert_eq!(c.stats.enemies_killed, 1);
    assert!(!c.game_over);
}

// Cooldown gating: with updates every 100 ms, a 1-shot-per-second
// tower fires at most once per simulated second.
#[test]
fn tower_fires_at_most_once_per_second() {
    let mut c = straight_controller(small_settings());
    assert!(c.add_tower(Point { x: 0, y: 1 }, TowerType::Basic));
    c.enemies.push(Enemy::with_stats(EnemyType::Strong, 1000, 0));
    for _ in 0..10 {
        c.step(100, EnemyType::Weak);
    }
    // One shot at the 1000 ms mark, none before.
    assert_eq!(c.enemies[0].health, 990);
    for _ in 0..10 {
        c.step(100, EnemyType::Weak);
    }
    assert_eq!(c.enemies[0].health, 980);
}

#[test]
fn spawn_timer_spawns_one_enemy_per_interval() {
    let mut c = straight_controller(small_settings());
    c.step(4999, EnemyType::Strong);
    assert!(c.enemies.is_empty());
    assert_eq!(c.enemies_to_spawn, 10);
    c.step(1, EnemyType::Strong);
    assert_eq!(c.enemies.len(), 1);
    assert_eq!(c.enemies[0].enemy_type, EnemyType::Strong);
    assert_eq!(c.enemies[0].path_index, 0);
    assert_eq!(c.enemies_to_spawn, 9);
    assert_eq!(c.spawn_timer_ms, 0);
}

#[test]
fn wave_completes_when_cleared_and_quota_exhausted() {
    let mut c = straight_controller(small_settings());
    c.enemies_to_spawn = 0;
    c.step(100, EnemyType::Weak);
    assert_eq!(c.stats.wave, 2);
    assert_eq!(c.stats.money, 550, "wave bonus of 50");
    assert_eq!(c.enemies_to_spawn, 20, "next quota is wave * 10");
}

#[test]
fn breach_ends_game_under_end_game_policy() {
    let mut c = straight_controller(small_settings());
    let mut e = Enemy::with_stats(EnemyType::Weak, 100, 0);
    e.path_index = 9;
    c.enemies.push(e);
    c.step(100, EnemyType::Weak);
    assert!(c.game_over);
    assert!(c.enemies.is_empty());
    assert_eq!(c.stats.enemies_killed, 0);
    // A finished run ignores further ticks.
    let money = c.stats.money;
    c.step(10_000, EnemyType::Weak);
    assert!(c.enemies.is_empty());
    assert_eq!(c.stats.money, money);
}

#[test]
fn breach_despawns_silently_under_despawn_policy() {
    let mut settings = small_settings();
    settings.breach_policy = BreachPolicy::Despawn;
    let mut c = straight_controller(settings);
    let mut e = Enemy::with_stats(EnemyType::Weak, 100, 0);
    e.path_index = 9;
    c.enemies.push(e);
    c.step(100, EnemyType::Weak);
    assert!(!c.game_over);
    assert!(c.enemies.is_empty());
    assert_eq!(c.stats.money, 500);
}

#[test]
fn breach_costs_money_under_penalty_policy() {
    let mut settings = small_settings();
    settings.breach_policy = BreachPolicy::MoneyPenalty;
    settings.breach_penalty = 200;
    let mut c = straight_controller(settings);
    let mut e = Enemy::with_stats(EnemyType::Weak, 100, 0);
    e.path_index = 9;
    c.enemies.push(e);
    c.step(100, EnemyType::Weak);
    assert!(!c.game_over);
    assert_eq!(c.stats.money, 300);
    // The penalty floors at zero.
    let mut e2 = Enemy::with_stats(EnemyType::Weak, 100, 0);
    e2.path_index = 9;
    c.enemies.push(e2);
    c.stats.money = 50;
    c.step(100, EnemyType::Weak);
    assert_eq!(c.stats.money, 0);
}

#[test]
fn dead_enemy_on_terminal_node_counts_as_kill_not_breach() {
    let mut c = straight_controller(small_settings());
    let mut e = Enemy::with_stats(EnemyType::Normal, 100, 0);
    e.path_index = 9;
    e.health = 0;
    c.enemies.push(e);
    c.step(100, EnemyType::Weak);
    assert!(!c.game_over);
    assert_eq!(c.stats.enemies_killed, 1);
    assert_eq!(c.stats.money, 520, "Normal reward of 20");
}

#[test]
fn update_draws_some_tier() {
    let mut c = straight_controller(small_settings());
    assert!(c.can_step(5000));
    c.update(5000);
    assert_eq!(c.enemies.len(), 1);
    assert_eq!(c.enemies[0].path_index, 0);
}

#[test]
fn can_step_refuses_clock_overflow() {
    let mut c = straight_controller(small_settings());
    assert!(c.can_step(1000));
    c.total_time_ms = u64::MAX;
    assert!(!c.can_step(1));
    assert!(c.can_step(0));
}

#[test]
fn generated_run_from_seed() {
    let c = GameController::new(Settings::new(), 123).unwrap();
    assert_eq!(c.stats.money, 500);
    assert!(c.can_step(16));
    assert!(!c.level.path.is_empty());
}

#[test]
fn enemies_walk_during_step() {
    let mut c = straight_controller(small_settings());
    c.enemies.push(Enemy::with_stats(EnemyType::Weak, 100, 2000));
    c.step(500, EnemyType::Weak);
    assert_eq!(c.enemies[0].path_index, 1);
}

// End to end: at 2 cells/second and half-second ticks, a 10-cell path
// is walked in 9 ticks; the walker then breaches and, under the
// default policy, ends the run.
#[test]
fn walker_breaches_after_nine_ticks() {
    let mut c = straight_controller(small_settings());
    c.enemies.push(Enemy::with_stats(EnemyType::Weak, 100, 2000));
    for k in 0..9 {
        assert!(!c.game_over, "still walking after {k} ticks");
        c.step(500, EnemyType::Weak);
    }
    assert!(c.game_over);
    assert!(c.enemies.is_empty());
    assert_eq!(c.stats.enemies_killed, 0);
}
