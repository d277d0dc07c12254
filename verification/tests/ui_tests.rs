use tower_defense::tower::TowerType;
use tower_defense::ui::{Dropdown, DropdownItem};

fn tower_dropdown() -> Dropdown {
    let items = vec![
        DropdownItem::new("Basic Tower", TowerType::Basic),
        DropdownItem::new("Sniper Tower", TowerType::Sniper),
        DropdownItem::new("Splash Tower", TowerType::Splash),
    ];
    Dropdown::new(10, 10, 200, 30, "Select Tower", items)
}

#[test]
fn item_keeps_label_and_value() {
    let item = DropdownItem::new("Basic Tower", TowerType::Basic);
    assert_eq!(item.label, "Basic Tower");
    assert_eq!(item.value, TowerType::Basic);
}

#[test]
fn click_on_header_opens() {
    let mut d = tower_dropdown();
    assert!(d.click(15, 15));
    assert!(d.is_open);
    assert_eq!(d.selected(), None);
}

#[test]
fn click_off_closed_widget_misses() {
    let mut d = tower_dropdown();
    assert!(!d.click(500, 500));
    assert!(!d.is_open);
}

#[test]
fn click_selects_row_and_closes() {
    let mut d = tower_dropdown();
    assert!(d.click(15, 15));
    // Rows sit below the header: row 1 spans y in [70, 100].
    assert!(d.click(15, 75));
    assert!(!d.is_open);
    assert_eq!(d.selected(), Some(TowerType::Sniper));
}

#[test]
fn click_outside_open_list_closes_without_selecting() {
    let mut d = tower_dropdown();
    assert!(d.click(15, 15));
    assert!(!d.click(500, 500));
    assert!(!d.is_open);
    assert_eq!(d.selected(), None);
}

#[test]
fn reset_clears_selection() {
    let mut d = tower_dropdown();
    assert!(d.click(15, 15));
    assert!(d.click(15, 45)); // row 0
    assert_eq!(d.selected(), Some(TowerType::Basic));
    d.reset();
    assert_eq!(d.selected(), None);
    assert!(!d.is_open);
}
