use arena_shooter::{displayed_health, pip_active, pip_left_px, Health};

#[test]
fn the_single_player_health_is_shown() {
    assert_eq!(displayed_health(&vec![Health(2)]), 2);
    assert_eq!(displayed_health(&vec![]), 0);
    assert_eq!(displayed_health(&vec![Health(2), Health(3)]), 0);
}

#[test]
fn pips_light_up_to_the_health() {
    let lit: Vec<bool> = (0..3).map(|i| pip_active(i, 2)).collect();
    assert_eq!(lit, vec![true, true, false]);
    assert!(!pip_active(0, 0));
    assert!(!pip_active(0, -3));
    assert!(pip_active(2, 5));
}

#[test]
fn pips_are_laid_out_left_to_right() {
    assert_eq!(pip_left_px(0), 10);
    assert_eq!(pip_left_px(1), 32);
    assert_eq!(pip_left_px(2), 54);
}
