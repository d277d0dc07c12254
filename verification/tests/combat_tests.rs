use tower_defense::combat::{apply_damage_events, DamageEvent};
use tower_defense::enemy::{Enemy, EnemyType};

fn squad() -> Vec<Enemy> {
    vec![
        Enemy::with_stats(EnemyType::Weak, 50, 1000),
        Enemy::with_stats(EnemyType::Normal, 60, 800),
        Enemy::with_stats(EnemyType::Strong, 200, 600),
    ]
}

// Damage conservation: the same batch of deferred events yields the
// same final health values in any application order.
#[test]
fn damage_events_commute() {
    let batch_a = vec![
        DamageEvent { target: 0, amount: 10 },
        DamageEvent { target: 1, amount: 20 },
        DamageEvent { target: 0, amount: 5 },
        DamageEvent { target: 2, amount: 50 },
    ];
    let batch_b = vec![
        DamageEvent { target: 2, amount: 50 },
        DamageEvent { target: 0, amount: 5 },
        DamageEvent { target: 0, amount: 10 },
        DamageEvent { target: 1, amount: 20 },
    ];
    let mut ea = squad();
    let mut eb = squad();
    apply_damage_events(&mut ea, &batch_a);
    apply_damage_events(&mut eb, &batch_b);
    let ha: Vec<u32> = ea.iter().map(|e| e.health).collect();
    let hb: Vec<u32> = eb.iter().map(|e| e.health).collect();
    assert_eq!(ha, vec![35, 40, 150]);
    assert_eq!(ha, hb);
}

#[test]
fn damage_clamps_at_zero_health() {
    let mut enemies = squad();
    let batch = vec![
        DamageEvent { target: 0, amount: 49 },
        DamageEvent { target: 0, amount: 49 },
    ];
    apply_damage_events(&mut enemies, &batch);
    assert_eq!(enemies[0].health, 0);
    assert_eq!(enemies[1].health, 60);
}

#[test]
fn out_of_range_targets_are_skipped() {
    let mut enemies = squad();
    let batch = vec![DamageEvent { target: 9, amount: 10 }];
    apply_damage_events(&mut enemies, &batch);
    let healths: Vec<u32> = enemies.iter().map(|e| e.health).collect();
    assert_eq!(healths, vec![50, 60, 200]);
}

#[test]
fn empty_batch_changes_nothing() {
    let mut enemies = squad();
    apply_damage_events(&mut enemies, &Vec::new());
    assert_eq!(enemies.len(), 3);
    assert_eq!(enemies[2].health, 200);
}
