use arena_shooter::{detect_player_enemy_collisions, Health};

#[test]
fn each_contact_costs_one_health() {
    let mut h = vec![Health(3)];
    let r = detect_player_enemy_collisions(&mut h, &vec![vec![true, false, true]], 3);
    assert_eq!(h[0].0, 1);
    assert_eq!(r.contacts, vec![(0, 0), (0, 2)]);
    assert!(!r.game_over);
}

#[test]
fn the_last_health_ends_the_game() {
    let mut h = vec![Health(1)];
    let r = detect_player_enemy_collisions(&mut h, &vec![vec![false, true]], 2);
    assert_eq!(h[0].0, 0);
    assert_eq!(r.contacts, vec![(0, 1)]);
    assert!(r.game_over);
}

#[test]
fn health_can_go_below_zero() {
    let mut h = vec![Health(1)];
    let r = detect_player_enemy_collisions(&mut h, &vec![vec![true, true, true]], 3);
    assert_eq!(h[0].0, -2);
    assert_eq!(r.contacts.len(), 3);
    assert!(r.game_over);
}

#[test]
fn no_contact_changes_nothing() {
    let mut h = vec![Health(0), Health(2)];
    let r = detect_player_enemy_collisions(&mut h, &vec![vec![false], vec![false]], 1);
    assert_eq!((h[0].0, h[1].0), (0, 2));
    assert!(r.contacts.is_empty());
    assert!(!r.game_over);
}

#[test]
fn every_player_is_checked() {
    let mut h = vec![Health(3), Health(1)];
    let r = detect_player_enemy_collisions(&mut h, &vec![vec![true, true], vec![false, true]], 2);
    assert_eq!((h[0].0, h[1].0), (1, 0));
    assert_eq!(r.contacts, vec![(0, 0), (0, 1), (1, 1)]);
    assert!(r.game_over);
}
