use std::collections::BTreeSet;
use rand::rngs::ThreadRng;
use vstd::prelude::*;
use crate::rng::random_below;

verus! {

broadcast use {vstd::std_specs::btree::group_btree_axioms, vstd::laws_cmp::group_laws_cmp};

/// Chunks within this many chunks of the player (on each axis) get props.
pub const SPAWN_RADIUS: i32 = 3;

/// Props whose chunk is farther than this (on either axis) are removed.
pub const DESPAWN_RADIUS: i32 = 5;

/// Distance between two chunk coordinates on one axis.
pub open spec fn axis_dist(a: i32, b: i32) -> int {
    if a - b < 0 {
        b - a
    } else {
        a - b
    }
}

/// A chunk lies outside the kept area around `center`.
pub open spec fn is_far(c: (i32, i32), center: (i32, i32)) -> bool {
    axis_dist(c.0, center.0) > DESPAWN_RADIUS || axis_dist(c.1, center.1) > DESPAWN_RADIUS
}

/// A chunk lies in the square window of chunks that must hold props.
pub open spec fn in_window(c: (i32, i32), center: (i32, i32)) -> bool {
    axis_dist(c.0, center.0) <= SPAWN_RADIUS && axis_dist(c.1, center.1) <= SPAWN_RADIUS
}

/// The chunks that lose their props: far chunks that some prop lives in.
pub open spec fn dropped_chunks(props: Seq<(i32, i32)>, center: (i32, i32)) -> Set<(i32, i32)> {
    Set::new(|c: (i32, i32)| is_far(c, center) && props.contains(c))
}

/// The spawned set after one update around `center`.
pub open spec fn updated_chunks(
    old: Set<(i32, i32)>,
    props: Seq<(i32, i32)>,
    center: (i32, i32),
) -> Set<(i32, i32)> {
    old.difference(dropped_chunks(props, center)).union(
        Set::new(|c: (i32, i32)| in_window(c, center)),
    )
}

/// Order in which the window is walked: by x, then by z.
pub open spec fn chunk_before(a: (i32, i32), b: (i32, i32)) -> bool {
    a.0 < b.0 || (a.0 == b.0 && a.1 < b.1)
}

/// Subtracting a prop's chunk coordinate from the center's does not leave `i32`
/// (the subtraction and its absolute value are taken in `i32`).
pub open spec fn axis_delta_fits(a: i32, b: i32) -> bool {
    i32::MIN < a - b <= i32::MAX
}

/// Every prop's chunk is within `i32` reach of `center` on both axes.
pub open spec fn props_fit(props: Seq<(i32, i32)>, center: (i32, i32)) -> bool {
    forall|i: int|
        0 <= i < props.len() ==> axis_delta_fits(#[trigger] props[i].0, center.0)
            && axis_delta_fits(props[i].1, center.1)
}

/// The chunks around `center` fit in `i32` coordinates.
pub open spec fn window_fits(center: (i32, i32)) -> bool {
    i32::MIN <= center.0 - SPAWN_RADIUS && center.0 + SPAWN_RADIUS <= i32::MAX
        && i32::MIN <= center.1 - SPAWN_RADIUS && center.1 + SPAWN_RADIUS <= i32::MAX
}

/// The chunks whose props have been spawned. This is a set of chunk
/// coordinates; it is kept in a `BTreeSet` rather than a `HashSet`, as vstd
/// can prove the ordering laws of `(i32, i32)` keys but not the hashing ones,
/// and only membership, insertion and removal are used.
pub struct SpawnedChunks {
    pub chunks: BTreeSet<(i32, i32)>,
}

impl View for SpawnedChunks {
    type V = Set<(i32, i32)>;

    open spec fn view(&self) -> Set<(i32, i32)> {
        self.chunks@
    }
}

impl SpawnedChunks {
    pub fn new() -> (s: Self)
        ensures
            s@ == Set::<(i32, i32)>::empty(),
    {
        SpawnedChunks { chunks: BTreeSet::new() }
    }

    pub fn contains(&self, c: (i32, i32)) -> (b: bool)
        ensures
            b == self@.contains(c),
    {
        self.chunks.contains(&c)
    }
}

/// What one update asks of the world: props to remove and chunks to fill.
pub struct ChunkUpdate {
    /// Indices (into the prop list handed in) of the props to despawn.
    pub despawn: Vec<usize>,
    /// Chunks that must now be filled with props, in walking order.
    pub populate: Vec<(i32, i32)>,
}

fn axis_far(a: i32, b: i32) -> (r: bool)
    ensures
        r == (axis_dist(a, b) > DESPAWN_RADIUS),
{
    let d: i64 = a as i64 - b as i64;
    d < -5 || d > 5
}

/// Keeps the prop world around the player's chunk `center`: props whose chunk
/// is far away are despawned and their chunk forgotten, then every chunk of the
/// window around the player that is not spawned yet is marked spawned and
/// handed back to be filled.
pub fn manage_chunks(
    spawned: &mut SpawnedChunks,
    center: (i32, i32),
    prop_chunks: &Vec<(i32, i32)>,
) -> (u: ChunkUpdate)
    requires
        window_fits(center),
        props_fit(prop_chunks@, center),
    ensures
        final(spawned)@ == updated_chunks(old(spawned)@, prop_chunks@, center),
        forall|k: int|
            0 <= k < u.despawn.len() ==> #[trigger] u.despawn[k] < prop_chunks.len()
                && is_far(prop_chunks[u.despawn[k] as int], center),
        forall|k: int, l: int| 0 <= k < l < u.despawn.len() ==> u.despawn[k] < u.despawn[l],
        forall|i: int|
            0 <= i < prop_chunks.len() && is_far(#[trigger] prop_chunks[i], center)
                ==> u.despawn@.contains(i as usize),
        forall|c: (i32, i32)|
            u.populate@.contains(c) <==> in_window(c, center) && !old(spawned)@.contains(c),
        forall|k: int, l: int|
            0 <= k < l < u.populate.len() ==> chunk_before(u.populate[k], u.populate[l]),
{
    let ghost old_set = spawned@;
    let mut despawn: Vec<usize> = Vec::new();
    let n = prop_chunks.len();
    let mut i: usize = 0;
    while i < n
        invariant
            n == prop_chunks.len(),
            0 <= i <= n,
            props_fit(prop_chunks@, center),
            spawned@ == old_set.difference(
                dropped_chunks(prop_chunks@.subrange(0, i as int), center),
            ),
            forall|k: int|
                0 <= k < despawn.len() ==> #[trigger] despawn[k] < i && is_far(
                    prop_chunks[despawn[k] as int],
                    center,
                ),
            forall|k: int, l: int| 0 <= k < l < despawn.len() ==> despawn[k] < despawn[l],
            forall|j: int|
                0 <= j < i && is_far(#[trigger] prop_chunks[j], center) ==> despawn@.contains(
                    j as usize,
                ),
        decreases n - i,
    {
        let c = prop_chunks[i];
        let ghost pre_despawn = despawn@;
        if axis_far(c.0, center.0) || axis_far(c.1, center.1) {
            despawn.push(i);
            spawned.chunks.remove(&c);
            assert(despawn[despawn.len() - 1] == i);
        }
        proof {
            let s0 = prop_chunks@.subrange(0, i as int);
            let s1 = prop_chunks@.subrange(0, i + 1);
            assert(s1 =~= s0.push(c));
            assert forall|x: (i32, i32)|
                #![trigger dropped_chunks(s1, center).contains(x)]
                dropped_chunks(s1, center).contains(x) <==> dropped_chunks(s0, center).contains(x)
                    || (x == c && is_far(c, center)) by {
                if s1.contains(x) && x != c {
                    let j = choose|j: int| 0 <= j < s1.len() && s1[j] == x;
                    assert(s0[j] == x);
                }
                if s0.contains(x) {
                    let j = choose|j: int| 0 <= j < s0.len() && s0[j] == x;
                    assert(s1[j] == x);
                }
                if x == c {
                    assert(s1[i as int] == x);
                }
            }
            assert(spawned@ =~= old_set.difference(dropped_chunks(s1, center)));
            assert forall|j: int|
                0 <= j < i + 1 && is_far(#[trigger] prop_chunks[j], center) implies despawn@.contains(
                j as usize,
            ) by {
                if j == i {
                    assert(despawn[despawn.len() - 1] == i);
                } else {
                    assert(pre_despawn.contains(j as usize));
                    let k = choose|k: int| 0 <= k < pre_despawn.len() && pre_despawn[k] == j as usize;
                    assert(despawn[k] == j as usize);
                }
            }
        }
        i = i + 1;
    }
    assert(prop_chunks@.subrange(0, n as int) =~= prop_chunks@);
    let ghost kept = spawned@;
    assert(kept == old_set.difference(dropped_chunks(prop_chunks@, center)));

    let mut populate: Vec<(i32, i32)> = Vec::new();
    let mut dx: i32 = -3;
    while dx <= 3
        invariant
            -3 <= dx <= 4,
            window_fits(center),
            kept == old_set.difference(dropped_chunks(prop_chunks@, center)),
            spawned@ == kept.union(
                Set::new(
                    |c: (i32, i32)| in_window(c, center) && c.0 - center.0 < dx,
                ),
            ),
            forall|c: (i32, i32)|
                populate@.contains(c) <==> in_window(c, center) && c.0 - center.0 < dx
                    && !old_set.contains(c),
            forall|k: int|
                0 <= k < populate.len() ==> (#[trigger] populate[k]).0 - center.0 < dx,
            forall|k: int, l: int|
                0 <= k < l < populate.len() ==> chunk_before(populate[k], populate[l]),
        decreases 4 - dx,
    {
        let mut dz: i32 = -3;
        while dz <= 3
            invariant
                -3 <= dx <= 3,
                -3 <= dz <= 4,
                window_fits(center),
                kept == old_set.difference(dropped_chunks(prop_chunks@, center)),
                spawned@ == kept.union(
                    Set::new(
                        |c: (i32, i32)|
                            in_window(c, center) && (c.0 - center.0 < dx || (c.0 - center.0 == dx
                                && c.1 - center.1 < dz)),
                    ),
                ),
                forall|c: (i32, i32)|
                    populate@.contains(c) <==> in_window(c, center) && (c.0 - center.0 < dx || (
                    c.0 - center.0 == dx && c.1 - center.1 < dz)) && !old_set.contains(c),
                forall|k: int|
                    0 <= k < populate.len() ==> (#[trigger] populate[k]).0 - center.0 < dx || (
                    populate[k].0 - center.0 == dx && populate[k].1 - center.1 < dz),
                forall|k: int, l: int|
                    0 <= k < l < populate.len() ==> chunk_before(populate[k], populate[l]),
            decreases 4 - dz,
        {
            let chunk: (i32, i32) = (center.0 + dx, center.1 + dz);
            let ghost pre_spawned = spawned@;
            let ghost pre_pop = populate@;
            if !spawned.chunks.contains(&chunk) {
                spawned.chunks.insert(chunk);
                populate.push(chunk);
                proof {
                    assert(!old_set.contains(chunk)) by {
                        assert(!is_far(chunk, center));
                        assert(!dropped_chunks(prop_chunks@, center).contains(chunk));
                        assert(!kept.contains(chunk));
                    }
                    assert forall|c: (i32, i32)|
                        populate@.contains(c) <==> in_window(c, center) && (c.0 - center.0 < dx
                            || (c.0 - center.0 == dx && c.1 - center.1 < dz + 1))
                            && !old_set.contains(c) by {
                        if populate@.contains(c) && c != chunk {
                            let k = choose|k: int| 0 <= k < populate.len() && populate[k] == c;
                            assert(pre_pop[k] == c);
                        }
                        if c == chunk {
                            assert(populate[populate.len() - 1] == c);
                        }
                        if pre_pop.contains(c) {
                            let k = choose|k: int| 0 <= k < pre_pop.len() && pre_pop[k] == c;
                            assert(populate[k] == c);
                        }
                    }
                }
            } else {
                proof {
                    assert(!is_far(chunk, center));
                    assert(!dropped_chunks(prop_chunks@, center).contains(chunk));
                    assert(old_set.contains(chunk));
                }
            }
            assert(spawned@ =~= kept.union(
                Set::new(
                    |c: (i32, i32)|
                        in_window(c, center) && (c.0 - center.0 < dx || (c.0 - center.0 == dx
                            && c.1 - center.1 < dz + 1)),
                ),
            ));
            dz = dz + 1;
        }
        assert(spawned@ =~= kept.union(
            Set::new(|c: (i32, i32)| in_window(c, center) && c.0 - center.0 < dx + 1),
        ));
        dx = dx + 1;
    }
    assert(spawned@ =~= updated_chunks(old_set, prop_chunks@, center));
    ChunkUpdate { despawn, populate }
}

/// Props scattered in each newly filled chunk.
pub const PROPS_PER_CHUNK: usize = 12;

/// The kinds of scenery a prop can be.
#[derive(Clone, Copy, Debug, PartialEq, Eq, Structural)]
pub enum PropKind {
    Rock,
    Stump,
    Bush,
}

/// The kind numbered `i`: 0 is a rock, 1 a stump, anything else a bush.
pub open spec fn prop_kind_of(i: u32) -> PropKind {
    if i == 0 {
        PropKind::Rock
    } else if i == 1 {
        PropKind::Stump
    } else {
        PropKind::Bush
    }
}

pub fn prop_kind_from_index(i: u32) -> (k: PropKind)
    ensures
        k == prop_kind_of(i),
{
    if i == 0 {
        PropKind::Rock
    } else if i == 1 {
        PropKind::Stump
    } else {
        PropKind::Bush
    }
}

/// Picks the kind of the next prop: exactly one number is drawn in `0..3`
/// (one call of `random_below` that takes the generator from its state on
/// entry to its state on return), and the kind is that number as
/// `prop_kind_of` reads it. As `Rng::random_range` draws uniformly, each kind
/// comes up a third of the time (see `lemma_kinds_one_per_index`).
pub fn choose_prop_kind(rng: &mut ThreadRng) -> (k: PropKind)
    ensures
        exists|i: u32, m: &mut ThreadRng|
            #![trigger call_ensures(random_below, (m, 3u32), i)]
            call_ensures(random_below, (m, 3u32), i) && *m == *old(rng)
                && *final(m) == *final(rng) && i < 3 && k == prop_kind_of(i),
{
    // called through a function value, so that the draw is recorded in `call_ensures`
    let draw = random_below;
    let i = draw(rng, 3);
    prop_kind_from_index(i)
}

/// The three draws `0..3` give the three kinds, each exactly once.
pub proof fn lemma_kinds_one_per_index(i: u32, j: u32, k: PropKind)
    ensures
        i < 3 && j < 3 && prop_kind_of(i) == prop_kind_of(j) ==> i == j,
        exists|n: u32| n < 3 && prop_kind_of(n) == k,
{
    match k {
        PropKind::Rock => assert(prop_kind_of(0) == k),
        PropKind::Stump => assert(prop_kind_of(1) == k),
        PropKind::Bush => assert(prop_kind_of(2) == k),
    }
}

/// After an update, every chunk of the window around the player is spawned.
pub proof fn lemma_window_spawned(
    old: Set<(i32, i32)>,
    props: Seq<(i32, i32)>,
    center: (i32, i32),
    c: (i32, i32),
)
    requires
        in_window(c, center),
    ensures
        updated_chunks(old, props, center).contains(c),
{
}

/// A spawned chunk that is not far from the player stays spawned.
pub proof fn lemma_near_chunk_kept(
    old: Set<(i32, i32)>,
    props: Seq<(i32, i32)>,
    center: (i32, i32),
    c: (i32, i32),
)
    requires
        old.contains(c),
        !is_far(c, center),
    ensures
        updated_chunks(old, props, center).contains(c),
{
}

/// A far chunk that still held a prop is forgotten, so it is filled again
/// when the player comes back.
pub proof fn lemma_far_chunk_forgotten(
    old: Set<(i32, i32)>,
    props: Seq<(i32, i32)>,
    center: (i32, i32),
    c: (i32, i32),
)
    requires
        props.contains(c),
        is_far(c, center),
    ensures
        !updated_chunks(old, props, center).contains(c),
{
}

/// If every prop lives in a spawned chunk before an update, every prop that
/// survives the update still lives in a spawned chunk afterwards.
pub proof fn lemma_surviving_props_tracked(
    old: Set<(i32, i32)>,
    props: Seq<(i32, i32)>,
    center: (i32, i32),
)
    requires
        forall|i: int| 0 <= i < props.len() ==> old.contains(#[trigger] props[i]),
    ensures
        forall|i: int|
            0 <= i < props.len() && !is_far(#[trigger] props[i], center) ==> updated_chunks(
                old,
                props,
                center,
            ).contains(props[i]),
{
}

/// Updating again around the same chunk, with only the props that survived,
/// changes nothing: the spawned set is already settled.
pub proof fn lemma_update_settles(
    old: Set<(i32, i32)>,
    props: Seq<(i32, i32)>,
    survivors: Seq<(i32, i32)>,
    center: (i32, i32),
)
    requires
        forall|i: int| 0 <= i < survivors.len() ==> !is_far(#[trigger] survivors[i], center),
    ensures
        updated_chunks(updated_chunks(old, props, center), survivors, center) == updated_chunks(
            old,
            props,
            center,
        ),
{
    let new = updated_chunks(old, props, center);
    assert(dropped_chunks(survivors, center) =~= Set::empty());
    assert(updated_chunks(new, survivors, center) =~= new);
}

} // verus!
