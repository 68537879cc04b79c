use arena_shooter::enemy::{ENEMY_SIZE, ENEMY_SPEED, WORLD_HALF_H, WORLD_HALF_W};
use arena_shooter::rng::random_below;
use arena_shooter::{choose_spawn_edge, edge_from_index, enemy_spawn_due, spawn_plan, SpawnEdge, SpawnTimer};

const MS: u64 = 1_000_000;

#[test]
fn an_enemy_spawns_every_second() {
    let mut t = SpawnTimer::new();
    assert!(!enemy_spawn_due(&mut t, 500 * MS));
    assert!(!enemy_spawn_due(&mut t, 499 * MS));
    assert!(enemy_spawn_due(&mut t, MS));
    assert!(!enemy_spawn_due(&mut t, 999 * MS));
    assert!(enemy_spawn_due(&mut t, 2 * MS));
    // one millisecond is left over from the last interval
    assert!(!enemy_spawn_due(&mut t, 998 * MS));
    assert!(enemy_spawn_due(&mut t, MS));
}

#[test]
fn a_long_frame_spawns_only_once() {
    let mut t = SpawnTimer::new();
    assert!(enemy_spawn_due(&mut t, 3_500 * MS));
    assert!(!enemy_spawn_due(&mut t, 400 * MS));
    assert!(enemy_spawn_due(&mut t, 100 * MS));
}

#[test]
fn edges_by_number() {
    assert_eq!(edge_from_index(0), SpawnEdge::Top);
    assert_eq!(edge_from_index(1), SpawnEdge::Bottom);
    assert_eq!(edge_from_index(2), SpawnEdge::Left);
    assert_eq!(edge_from_index(3), SpawnEdge::Right);
}

#[test]
fn spawn_plans() {
    let p = spawn_plan(SpawnEdge::Top);
    assert!(p.random_x);
    assert_eq!(p.fixed, -390);
    assert_eq!(p.velocity, (0, -200));
    let p = spawn_plan(SpawnEdge::Bottom);
    assert!(p.random_x);
    assert_eq!(p.fixed, 390);
    assert_eq!(p.velocity, (0, 200));
    let p = spawn_plan(SpawnEdge::Left);
    assert!(!p.random_x);
    assert_eq!(p.fixed, -670);
    assert_eq!(p.velocity, (200, 0));
    let p = spawn_plan(SpawnEdge::Right);
    assert!(!p.random_x);
    assert_eq!(p.fixed, 670);
    assert_eq!(p.velocity, (-200, 0));
    assert_eq!((WORLD_HALF_W, WORLD_HALF_H, ENEMY_SIZE, ENEMY_SPEED), (640, 360, 30, 200));
}

#[test]
fn random_edges_cover_all_edges() {
    let mut rng = rand::rng();
    let mut seen = [false; 4];
    for _ in 0..500 {
        match choose_spawn_edge(&mut rng) {
            SpawnEdge::Top => seen[0] = true,
            SpawnEdge::Bottom => seen[1] = true,
            SpawnEdge::Left => seen[2] = true,
            SpawnEdge::Right => seen[3] = true,
        }
    }
    assert_eq!(seen, [true, true, true, true]);
}

#[test]
fn random_numbers_stay_below_the_bound() {
    let mut rng = rand::rng();
    for _ in 0..1000 {
        assert!(random_below(&mut rng, 4) < 4);
        assert_eq!(random_below(&mut rng, 1), 0);
    }
}
