use tower_defense::enemy::{Enemy, EnemyType};
use tower_defense::level::{Level, Point};
use tower_defense::tower::{Tower, TowerType};

fn straight_level(len: usize) -> Level {
    let path: Vec<Point> = (0..len).map(|i| Point { x: i, y: 0 }).collect();
    Level::from_parts(10, 10, path, Vec::new()).unwrap()
}

fn enemy_at(index: usize) -> Enemy {
    let mut e = Enemy::with_stats(EnemyType::Weak, 100, 1000);
    e.path_index = index;
    e
}

#[test]
fn archetype_table() {
    let b = Tower::new(TowerType::Basic, Point { x: 0, y: 0 });
    assert_eq!((b.damage, b.range_mu, b.cooldown_ms), (10, 3000, 1000));
    let s = Tower::new(TowerType::Sniper, Point { x: 0, y: 0 });
    assert_eq!((s.damage, s.range_mu, s.cooldown_ms), (50, 10000, 3000));
    let f = Tower::new(TowerType::Splash, Point { x: 0, y: 0 });
    assert_eq!((f.damage, f.range_mu, f.cooldown_ms), (15, 2000, 1500));
    assert_eq!(Tower::cost(TowerType::Basic), 100);
    assert_eq!(Tower::cost(TowerType::Sniper), 150);
    assert_eq!(Tower::cost(TowerType::Splash), 200);
}

#[test]
fn cooldown_gates_firing() {
    let t = Tower::new(TowerType::Basic, Point { x: 0, y: 0 });
    assert!(!t.can_fire(0));
    assert!(!t.can_fire(999));
    assert!(t.can_fire(1000));
    let mut fired = t;
    fired.last_fire_ms = 1000;
    assert!(!fired.can_fire(1999));
    assert!(fired.can_fire(2000));
}

// Single-target archetypes pick the furthest-advanced enemy in range.
#[test]
fn sniper_targets_furthest_advanced() {
    let level = straight_level(10);
    let tower = Tower::new(TowerType::Sniper, Point { x: 0, y: 1 });
    let enemies = vec![enemy_at(2), enemy_at(5), enemy_at(3)];
    assert_eq!(tower.find_targets(&enemies, &level.path), vec![1]);
}

#[test]
fn tie_goes_to_earliest_listed() {
    let level = straight_level(10);
    let tower = Tower::new(TowerType::Sniper, Point { x: 0, y: 1 });
    let enemies = vec![enemy_at(4), enemy_at(4), enemy_at(1)];
    assert_eq!(tower.find_targets(&enemies, &level.path), vec![0]);
}

#[test]
fn out_of_range_enemies_are_ignored() {
    let level = straight_level(10);
    let tower = Tower::new(TowerType::Basic, Point { x: 0, y: 0 });
    // Basic range is 3 cells; index 9 sits 9 cells away.
    let enemies = vec![enemy_at(9)];
    assert_eq!(tower.find_targets(&enemies, &level.path), Vec::<usize>::new());
    let enemies2 = vec![enemy_at(9), enemy_at(2)];
    assert_eq!(tower.find_targets(&enemies2, &level.path), vec![1]);
}

// The splash archetype hits every enemy in range, in list order.
#[test]
fn splash_hits_all_in_range() {
    let level = straight_level(10);
    let tower = Tower::new(TowerType::Splash, Point { x: 0, y: 0 });
    let enemies = vec![enemy_at(0), enemy_at(1), enemy_at(3), enemy_at(2)];
    assert_eq!(tower.find_targets(&enemies, &level.path), vec![0, 1, 3]);
}

#[test]
fn range_is_euclidean_not_taxicab() {
    // Tower at (0, 3), enemy at cell (4, 0): squared distance is
    // 4000^2 + 3000^2 = 5000^2 millicells, exactly a 5-cell radius.
    let path: Vec<Point> = (0..10).map(|i| Point { x: i, y: 0 }).collect();
    let level = Level::from_parts(10, 10, path, Vec::new()).unwrap();
    let mut tower = Tower::new(TowerType::Basic, Point { x: 0, y: 3 });
    tower.range_mu = 5000;
    let enemies = vec![enemy_at(4)];
    assert_eq!(tower.find_targets(&enemies, &level.path), vec![0]);
    tower.range_mu = 4999;
    assert_eq!(tower.find_targets(&enemies, &level.path), Vec::<usize>::new());
}
