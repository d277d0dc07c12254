use tower_defense::stats::GameStats;

#[test]
fn new_stats_start_at_wave_one() {
    let s = GameStats::new(500);
    assert_eq!(s.money, 500);
    assert_eq!(s.wave, 1);
    assert_eq!(s.enemies_killed, 0);
}

#[test]
fn add_money_accumulates() {
    let mut s = GameStats::new(100);
    s.add_money(50);
    assert_eq!(s.money, 150);
    s.add_money(0);
    assert_eq!(s.money, 150);
}

#[test]
fn spend_money_deducts_when_covered() {
    let mut s = GameStats::new(100);
    assert!(s.spend_money(40));
    assert_eq!(s.money, 60);
}

#[test]
fn spend_money_never_goes_negative() {
    let mut s = GameStats::new(30);
    assert!(!s.spend_money(31));
    assert_eq!(s.money, 30);
    assert!(s.spend_money(30));
    assert_eq!(s.money, 0);
    assert!(!s.spend_money(1));
    assert_eq!(s.money, 0);
}

#[test]
fn next_wave_and_kills_count_up() {
    let mut s = GameStats::new(0);
    s.next_wave();
    s.next_wave();
    assert_eq!(s.wave, 3);
    s.enemy_killed();
    assert_eq!(s.enemies_killed, 1);
    assert_eq!(s.money, 0);
}
