use session_server::player::{Player, WorldCoordinate};
use session_server::registry::Registry;

#[test]
fn player_accessors_report_its_state() {
    let mut p = Player::new(77, 123);
    assert_eq!(p.id(), 77);
    assert_eq!(p.position(), WorldCoordinate::new(0, 0, 0));
    assert_eq!(p.last_update(), 123);
    p.set_position(WorldCoordinate::new(-4, 8, 15), 456);
    assert_eq!(p.position(), WorldCoordinate::new(-4, 8, 15));
    assert_eq!(p.last_update(), 456);
}

#[test]
fn insert_get_and_remove_work_by_identifier() {
    let mut reg = Registry::new();
    assert_eq!(reg.len(), 0);
    reg.insert(Player::new(1, 0));
    reg.insert(Player::new(2, 0));
    assert_eq!(reg.len(), 2);
    assert!(reg.contains(1));
    assert!(!reg.contains(3));
    assert_eq!(reg.get(2).map(|p| p.id()), Some(2));
    assert!(reg.get(3).is_none());

    let removed = reg.remove(1);
    assert_eq!(removed.map(|p| p.id()), Some(1));
    assert!(reg.remove(1).is_none());
    assert_eq!(reg.len(), 1);
}

#[test]
fn reinserting_replaces_the_entry() {
    let mut reg = Registry::new();
    reg.insert(Player::new(5, 0));
    let mut moved = Player::new(5, 9);
    moved.set_position(WorldCoordinate::new(1, 1, 1), 9);
    reg.insert(moved);
    assert_eq!(reg.len(), 1);
    assert_eq!(reg.get(5).map(|p| p.position()), Some(WorldCoordinate::new(1, 1, 1)));
}

#[test]
fn positions_and_ids_come_in_registry_order() {
    let mut reg = Registry::new();
    reg.insert(Player::new(3, 0));
    reg.insert(Player::new(1, 0));
    assert_eq!(reg.ids(), vec![3, 1]);
    assert_eq!(
        reg.positions(),
        vec![WorldCoordinate::new(0, 0, 0), WorldCoordinate::new(0, 0, 0)]
    );
}

#[test]
fn sweep_removes_only_the_inactive() {
    let mut reg = Registry::new();
    reg.insert(Player::new(1, 0));
    reg.insert(Player::new(2, 900));
    reg.insert(Player::new(3, 100));
    let removed = reg.sweep_inactive(1000, 500);
    assert_eq!(removed, vec![1, 3]);
    assert_eq!(reg.len(), 1);
    assert!(reg.contains(2));
}

#[test]
fn set_position_refreshes_activity() {
    let mut reg = Registry::new();
    reg.insert(Player::new(1, 0));
    assert!(reg.set_position(1, WorldCoordinate::new(2, 2, 2), 800));
    assert!(!reg.set_position(9, WorldCoordinate::new(2, 2, 2), 800));
    // Refreshed at 800, so a sweep at 1000 with threshold 500 keeps it.
    let removed = reg.sweep_inactive(1000, 500);
    assert!(removed.is_empty());
    assert_eq!(reg.get(1).map(|p| p.last_update()), Some(800));
}
