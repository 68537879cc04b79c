use arena_shooter::{restart, GameState, Health, Score, MAX_HEALTH};

#[test]
fn r_restarts_a_lost_game() {
    let mut score = Score(17);
    let mut h = vec![Health(-1)];
    let next = restart(GameState::GameOver, true, &mut score, &mut h);
    assert_eq!(next, Some(GameState::Playing));
    assert_eq!(score.0, 0);
    assert_eq!(h[0].0, MAX_HEALTH);
    assert_eq!(MAX_HEALTH, 3);
}

#[test]
fn without_r_nothing_happens() {
    let mut score = Score(17);
    let mut h = vec![Health(0)];
    assert_eq!(restart(GameState::GameOver, false, &mut score, &mut h), None);
    assert_eq!(score.0, 17);
    assert_eq!(h[0].0, 0);
}

#[test]
fn r_does_nothing_while_playing() {
    let mut score = Score(5);
    let mut h = vec![Health(2)];
    assert_eq!(restart(GameState::Playing, true, &mut score, &mut h), None);
    assert_eq!(score.0, 5);
    assert_eq!(h[0].0, 2);
}

#[test]
fn the_game_starts_playing() {
    assert_eq!(GameState::default(), GameState::Playing);
    assert_eq!(Health::full().0, 3);
}
