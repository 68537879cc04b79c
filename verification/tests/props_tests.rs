use arena_shooter::props::{PROPS_PER_CHUNK, DESPAWN_RADIUS, SPAWN_RADIUS};
use arena_shooter::{choose_prop_kind, manage_chunks, prop_kind_from_index, PropKind, SpawnedChunks};

#[test]
fn first_update_fills_the_whole_window_in_order() {
    let mut spawned = SpawnedChunks::new();
    let u = manage_chunks(&mut spawned, (0, 0), &vec![]);
    assert!(u.despawn.is_empty());
    assert_eq!(u.populate.len(), 49);
    assert_eq!(u.populate[0], (-3, -3));
    assert_eq!(u.populate[1], (-3, -2));
    assert_eq!(u.populate[7], (-2, -3));
    assert_eq!(u.populate[48], (3, 3));
    for w in u.populate.windows(2) {
        assert!(w[0] < w[1]);
    }
    assert_eq!(spawned.chunks.len(), 49);
    assert!(spawned.contains((0, 0)));
    assert!(spawned.contains((3, -3)));
    assert!(!spawned.contains((4, 0)));
}

#[test]
fn second_update_at_the_same_place_does_nothing() {
    let mut spawned = SpawnedChunks::new();
    manage_chunks(&mut spawned, (2, -1), &vec![]);
    let props = vec![(2, -1), (5, 2), (-1, -4)];
    let u = manage_chunks(&mut spawned, (2, -1), &props);
    assert!(u.despawn.is_empty());
    assert!(u.populate.is_empty());
    assert_eq!(spawned.chunks.len(), 49);
}

#[test]
fn moving_one_chunk_fills_one_new_column() {
    let mut spawned = SpawnedChunks::new();
    manage_chunks(&mut spawned, (0, 0), &vec![]);
    let u = manage_chunks(&mut spawned, (1, 0), &vec![(0, 0)]);
    assert!(u.despawn.is_empty());
    assert_eq!(u.populate, vec![(4, -3), (4, -2), (4, -1), (4, 0), (4, 1), (4, 2), (4, 3)]);
    assert_eq!(spawned.chunks.len(), 56);
}

#[test]
fn far_props_are_despawned_and_their_chunk_forgotten() {
    let mut spawned = SpawnedChunks::new();
    manage_chunks(&mut spawned, (0, 0), &vec![]);
    // the player walks far to the right; props of the old window are left behind
    let props = vec![(-3, 0), (0, 0), (-3, 0), (2, 2), (0, -6)];
    let u = manage_chunks(&mut spawned, (3, 0), &props);
    // (-3, 0) is 6 chunks away on x; (0, -6) was never spawned but is far too
    assert_eq!(u.despawn, vec![0, 2, 4]);
    assert!(!spawned.contains((-3, 0)));
    assert!(spawned.contains((-3, 1)));
    assert!(spawned.contains((0, 0)));
    assert!(spawned.contains((6, 3)));
    assert_eq!(u.populate.len(), 21);
}

#[test]
fn a_chunk_exactly_at_the_despawn_radius_is_kept() {
    let mut spawned = SpawnedChunks::new();
    manage_chunks(&mut spawned, (0, 0), &vec![]);
    let u = manage_chunks(&mut spawned, (2, 0), &vec![(-3, 0), (-3, 3)]);
    assert!(u.despawn.is_empty());
    assert!(spawned.contains((-3, 0)));
    assert_eq!(DESPAWN_RADIUS, 5);
    assert_eq!(SPAWN_RADIUS, 3);
}

#[test]
fn window_near_the_edge_of_the_coordinates() {
    let mut spawned = SpawnedChunks::new();
    let u = manage_chunks(&mut spawned, (i32::MAX - 3, i32::MIN + 3), &vec![]);
    assert_eq!(u.populate.len(), 49);
    assert_eq!(u.populate[48], (i32::MAX, i32::MIN + 6));
}

#[test]
fn prop_kinds_by_number() {
    assert_eq!(prop_kind_from_index(0), PropKind::Rock);
    assert_eq!(prop_kind_from_index(1), PropKind::Stump);
    assert_eq!(prop_kind_from_index(2), PropKind::Bush);
    assert_eq!(prop_kind_from_index(7), PropKind::Bush);
    assert_eq!(PROPS_PER_CHUNK, 12);
}

#[test]
fn random_prop_kinds_cover_all_kinds() {
    let mut rng = rand::rng();
    let mut seen = [false; 3];
    for _ in 0..500 {
        match choose_prop_kind(&mut rng) {
            PropKind::Rock => seen[0] = true,
            PropKind::Stump => seen[1] = true,
            PropKind::Bush => seen[2] = true,
        }
    }
    assert_eq!(seen, [true, true, true]);
}
