use arena_shooter::input_direction;

#[test]
fn keys_give_a_direction() {
    assert_eq!(input_direction(false, false, false, false), (0, 0));
    assert_eq!(input_direction(true, false, false, false), (0, 1));
    assert_eq!(input_direction(false, true, false, false), (0, -1));
    assert_eq!(input_direction(false, false, true, false), (-1, 0));
    assert_eq!(input_direction(false, false, false, true), (1, 0));
    assert_eq!(input_direction(true, false, false, true), (1, 1));
}

#[test]
fn opposite_keys_cancel() {
    assert_eq!(input_direction(true, true, false, false), (0, 0));
    assert_eq!(input_direction(false, false, true, true), (0, 0));
    assert_eq!(input_direction(true, true, true, true), (0, 0));
}
