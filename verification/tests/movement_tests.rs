use tower_defense::enemy::{Enemy, EnemyType};
use tower_defense::level::{Level, Point};

fn straight_path(len: usize) -> Vec<Point> {
    (0..len).map(|i| Point { x: i, y: 0 }).collect()
}

#[test]
fn tier_table_matches() {
    let w = Enemy::new(EnemyType::Weak);
    assert_eq!((w.health, w.max_health, w.speed), (50, 50, 1000));
    let n = Enemy::new(EnemyType::Normal);
    assert_eq!((n.health, n.max_health, n.speed), (100, 100, 800));
    let s = Enemy::new(EnemyType::Strong);
    assert_eq!((s.health, s.max_health, s.speed), (200, 200, 600));
    assert_eq!(w.path_index, 0);
    assert_eq!(w.progress, 0);
}

#[test]
fn rewards_by_tier() {
    assert_eq!(Enemy::new(EnemyType::Weak).reward(), 10);
    assert_eq!(Enemy::new(EnemyType::Normal).reward(), 20);
    assert_eq!(Enemy::new(EnemyType::Strong).reward(), 30);
}

// Concrete scenario: a 10-cell straight path, speed 2 cells/second,
// ticks of half a second: after 9 ticks the enemy stands exactly on
// the last node, at the center of (9, 0).
#[test]
fn reaches_end_in_nine_half_second_ticks() {
    let path = straight_path(10);
    let level = Level::from_parts(10, 10, path, Vec::new()).unwrap();
    let mut e = Enemy::with_stats(EnemyType::Weak, 100, 2000);
    for _ in 0..9 {
        assert!(!e.reached_end(10));
        e.update(10, 500);
    }
    assert_eq!(e.path_index, 9);
    assert_eq!(e.progress, 0);
    assert!(e.reached_end(10));
    assert_eq!(e.position_mu(&level.path), (9500, 500));
}

// A budget below one segment can never advance more than one node in
// one tick.
#[test]
fn no_overshoot_with_small_budget() {
    let mut e = Enemy::with_stats(EnemyType::Normal, 100, 1500);
    for _ in 0..20 {
        let before = e.path_index;
        e.update(10, 500); // budget 750 millicells < 1000
        assert!(e.path_index <= before + 1);
    }
    assert_eq!(e.path_index, 9);
}

// A budget spanning several segments consumes several nodes at once.
#[test]
fn large_budget_consumes_multiple_nodes() {
    let mut e = Enemy::with_stats(EnemyType::Weak, 100, 2000);
    e.update(10, 1500); // budget 3000 millicells = 3 cells
    assert_eq!(e.path_index, 3);
    assert_eq!(e.progress, 0);
}

// Movement stops exactly at the terminal node however large the
// budget is.
#[test]
fn movement_caps_at_terminal_node() {
    let mut e = Enemy::with_stats(EnemyType::Weak, 100, 2000);
    e.update(10, 60_000);
    assert_eq!(e.path_index, 9);
    assert_eq!(e.progress, 0);
}

#[test]
fn zero_speed_stays_put() {
    let mut e = Enemy::with_stats(EnemyType::Weak, 100, 0);
    e.update(10, 10_000);
    assert_eq!(e.path_index, 0);
    assert_eq!(e.progress, 0);
}

#[test]
fn position_interpolates_along_segment() {
    let path = straight_path(2);
    let level = Level::from_parts(10, 10, path, Vec::new()).unwrap();
    let mut e = Enemy::with_stats(EnemyType::Weak, 100, 500);
    e.update(2, 500); // budget 250 millicells
    assert_eq!(e.path_index, 0);
    assert_eq!(e.progress, 250);
    assert_eq!(e.position_mu(&level.path), (750, 500));
}

#[test]
fn position_interpolates_downward_segment() {
    // Path heading in -x: centers move left as progress grows.
    let path = vec![Point { x: 2, y: 0 }, Point { x: 1, y: 0 }, Point { x: 0, y: 0 }];
    let level = Level::from_parts(3, 1, path, Vec::new()).unwrap();
    let mut e = Enemy::with_stats(EnemyType::Weak, 100, 400);
    e.update(3, 1000); // budget 400
    assert_eq!((e.path_index, e.progress), (0, 400));
    assert_eq!(e.position_mu(&level.path), (2100, 500));
}

#[test]
fn take_damage_saturates_at_zero() {
    let mut e = Enemy::with_stats(EnemyType::Weak, 50, 1000);
    e.take_damage(20);
    assert_eq!(e.health, 30);
    assert!(!e.is_dead());
    e.take_damage(100);
    assert_eq!(e.health, 0);
    assert!(e.is_dead());
}

#[test]
fn health_permille_fraction() {
    let mut e = Enemy::with_stats(EnemyType::Weak, 50, 1000);
    assert_eq!(e.health_permille(), 1000);
    e.take_damage(25);
    assert_eq!(e.health_permille(), 500);
    e.take_damage(25);
    assert_eq!(e.health_permille(), 0);
}
