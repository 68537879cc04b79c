use arena_shooter::projectile::FIRE_COOLDOWN_NANOS;
use arena_shooter::{fire, fire_ready, match_bullets_to_enemies, FireCooldown};

const MS: u64 = 1_000_000;

#[test]
fn each_bullet_takes_the_first_free_enemy() {
    let hits = vec![vec![true, true], vec![true, false], vec![false, true]];
    assert_eq!(match_bullets_to_enemies(&hits, 2), vec![(0, 0), (2, 1)]);
}

#[test]
fn one_enemy_is_not_killed_twice() {
    let hits = vec![vec![false, true, false], vec![false, true, false], vec![true, true, true]];
    assert_eq!(match_bullets_to_enemies(&hits, 3), vec![(0, 1), (2, 0)]);
}

#[test]
fn no_overlap_no_kill() {
    let hits = vec![vec![false, false], vec![false, false]];
    assert!(match_bullets_to_enemies(&hits, 2).is_empty());
    assert!(match_bullets_to_enemies(&vec![], 4).is_empty());
    assert!(match_bullets_to_enemies(&vec![vec![], vec![]], 0).is_empty());
}

#[test]
fn cooldown_starts_unready() {
    let mut c = FireCooldown::new();
    assert!(!fire_ready(&mut c, 0, true));
    assert!(!fire_ready(&mut c, 100 * MS, true));
    // 0.15 s as an f32 is a little over 150 ms
    assert!(!fire_ready(&mut c, 50 * MS, true));
    assert!(!fire_ready(&mut c, 5, true));
    assert!(fire_ready(&mut c, 1, true));
    assert_eq!(FIRE_COOLDOWN_NANOS, 150_000_006);
}

#[test]
fn cooldown_runs_out_while_the_key_is_up() {
    let mut c = FireCooldown::new();
    assert!(!fire_ready(&mut c, 200 * MS, false));
    assert!(fire_ready(&mut c, 0, true));
    assert!(fire_ready(&mut c, 16 * MS, true));
}

#[test]
fn firing_restarts_the_cooldown() {
    let mut c = FireCooldown::new();
    assert!(fire_ready(&mut c, 151 * MS, true));
    fire(&mut c);
    assert!(!fire_ready(&mut c, 16 * MS, true));
    assert!(!fire_ready(&mut c, 134 * MS, true));
    assert!(fire_ready(&mut c, MS, true));
}
