use bevy::time::Timer;
use vstd::prelude::*;
use crate::enemy::total_time;
use crate::timer::{
    new_timer, tick_timer, reset_timer, timer_is_finished, timer_elapsed, timer_duration,
    timer_repeating, timer_paused, timer_finished, saturating_elapsed,
};

verus! {

/// Some kill in `kills` already took enemy `e`.
pub open spec fn enemy_taken(kills: Seq<(usize, usize)>, e: int) -> bool {
    exists|k: int| 0 <= k < kills.len() && kills[k].1 == e
}

/// The first enemy at or after `from` that this bullet overlaps and that no
/// earlier kill took.
pub open spec fn first_free_enemy(row: Seq<bool>, kills: Seq<(usize, usize)>, from: int) -> Option<
    int,
>
    decreases row.len() - from,
{
    if from < 0 || from >= row.len() {
        None
    } else if row[from] && !enemy_taken(kills, from) {
        Some(from)
    } else {
        first_free_enemy(row, kills, from + 1)
    }
}

/// The kills of one frame: bullets are taken in order, and each destroys the
/// first enemy it overlaps that an earlier bullet has not destroyed already.
/// `hits[b][e]` says whether bullet `b` overlaps enemy `e`.
pub open spec fn bullet_kills(hits: Seq<Seq<bool>>) -> Seq<(usize, usize)>
    decreases hits.len(),
{
    if hits.len() == 0 {
        Seq::empty()
    } else {
        let prev = bullet_kills(hits.drop_last());
        match first_free_enemy(hits.last(), prev, 0) {
            Some(e) => prev.push(((hits.len() - 1) as usize, e as usize)),
            None => prev,
        }
    }
}

proof fn lemma_first_free_skips(row: Seq<bool>, kills: Seq<(usize, usize)>, from: int, to: int)
    requires
        0 <= from <= to <= row.len(),
        forall|e: int| from <= e < to ==> !(row[e] && !enemy_taken(kills, e)),
    ensures
        first_free_enemy(row, kills, from) == first_free_enemy(row, kills, to),
    decreases to - from,
{
    if from < to {
        lemma_first_free_skips(row, kills, from + 1, to);
    }
}

proof fn lemma_first_free_is_first(row: Seq<bool>, kills: Seq<(usize, usize)>, from: int)
    requires
        0 <= from,
    ensures
        match first_free_enemy(row, kills, from) {
            Some(e) => from <= e < row.len() && row[e] && !enemy_taken(kills, e) && forall|x: int|
                from <= x < e ==> !(row[x] && !enemy_taken(kills, x)),
            None => forall|x: int| from <= x < row.len() ==> !(row[x] && !enemy_taken(kills, x)),
        },
    decreases row.len() - from,
{
    if from < row.len() {
        lemma_first_free_is_first(row, kills, from + 1);
    }
}

/// Matches the bullets of one frame against the enemies they overlap.
/// The result lists the (bullet, enemy) pairs to despawn, one kill each.
pub fn match_bullets_to_enemies(hits: &Vec<Vec<bool>>, n_enemies: usize) -> (kills: Vec<
    (usize, usize),
>)
    requires
        forall|b: int| 0 <= b < hits.len() ==> (#[trigger] hits[b]).len() == n_enemies,
    ensures
        kills@ == bullet_kills(hits.deep_view()),
{
    let mut kills: Vec<(usize, usize)> = Vec::new();
    let mut taken: Vec<bool> = Vec::new();
    let mut e: usize = 0;
    while e < n_enemies
        invariant
            e <= n_enemies,
            taken.len() == e,
            forall|x: int| 0 <= x < e ==> !(#[trigger] taken[x]),
        decreases n_enemies - e,
    {
        taken.push(false);
        e = e + 1;
    }
    let ghost hv = hits.deep_view();
    let nb = hits.len();
    let mut b: usize = 0;
    while b < nb
        invariant
            nb == hits.len(),
            b <= nb,
            hv == hits.deep_view(),
            hv.len() == nb,
            forall|x: int| 0 <= x < hits.len() ==> (#[trigger] hits[x]).len() == n_enemies,
            taken.len() == n_enemies,
            kills@ == bullet_kills(hv.subrange(0, b as int)),
            forall|x: int| 0 <= x < n_enemies ==> #[trigger] taken[x] == enemy_taken(kills@, x),
        decreases nb - b,
    {
        let row = &hits[b];
        let ghost rv = row@;
        assert(hv[b as int] == rv);
        let mut e: usize = 0;
        let mut found: Option<usize> = None;
        while e < n_enemies
            invariant_except_break
                found is None,
            invariant
                row@ == rv,
                rv.len() == n_enemies,
                taken.len() == n_enemies,
                e <= n_enemies,
                forall|x: int| 0 <= x < n_enemies ==> #[trigger] taken[x] == enemy_taken(kills@, x),
                first_free_enemy(rv, kills@, 0) == first_free_enemy(rv, kills@, e as int),
            ensures
                found matches Some(x) ==> x == e && e < n_enemies && !taken[x as int] && rv[x as int],
                found is None ==> e == n_enemies,
            decreases n_enemies - e,
        {
            if !taken[e] && row[e] {
                found = Some(e);
                break;
            }
            proof {
                lemma_first_free_skips(rv, kills@, e as int, e + 1);
            }
            e = e + 1;
        }
        proof {
            let sub = hv.subrange(0, b + 1);
            assert(sub.drop_last() =~= hv.subrange(0, b as int));
            assert(sub.last() == rv);
        }
        match found {
            Some(x) => {
                proof {
                    lemma_first_free_is_first(rv, kills@, x as int);
                }
                assert(first_free_enemy(rv, kills@, x as int) == Some(x as int));
                let ghost pre = kills@;
                kills.push((b, x));
                taken.set(x, true);
                proof {
                    assert forall|y: int| 0 <= y < n_enemies implies #[trigger] taken[y]
                        == enemy_taken(kills@, y) by {
                        if enemy_taken(pre, y) {
                            let k = choose|k: int| 0 <= k < pre.len() && pre[k].1 == y;
                            assert(kills@[k] == pre[k]);
                        }
                        if y == x {
                            assert(kills@[pre.len() as int].1 == y);
                        }
                        if enemy_taken(kills@, y) && y != x {
                            let k = choose|k: int| 0 <= k < kills@.len() && kills@[k].1 == y;
                            assert(k < pre.len());
                            assert(pre[k] == kills@[k]);
                        }
                    }
                }
            },
            None => {
                proof {
                    lemma_first_free_is_first(rv, kills@, n_enemies as int);
                }
            },
        }
        b = b + 1;
    }
    assert(hv.subrange(0, nb as int) =~= hv);
    kills
}

/// Nanoseconds the gun needs between two shots. The cooldown is 0.15 s; as
/// an `f32`, 0.15 is 0.1500000059604644775390625, which a `Duration` rounds to
/// 150_000_006 ns, so frames adding up to exactly 150 ms do not yet fire.
pub const FIRE_COOLDOWN_NANOS: u64 = 150_000_006;

/// The cooldown in nanoseconds.
pub open spec fn fire_cooldown() -> nat {
    FIRE_COOLDOWN_NANOS as nat
}

/// Time on the cooldown after a frame of `delta` nanoseconds: it counts up
/// and stops at the cooldown.
pub open spec fn cooldown_step(elapsed: nat, delta: nat) -> nat {
    if elapsed + delta >= fire_cooldown() {
        fire_cooldown()
    } else {
        elapsed + delta
    }
}

/// The one-shot timer that spaces the player's shots.
pub struct FireCooldown(pub Timer);

impl FireCooldown {
    /// A running one-shot timer of the cooldown's length that reads finished
    /// exactly when its time has reached the cooldown.
    pub open spec fn wf(&self) -> bool {
        &&& timer_duration(self.0) == fire_cooldown()
        &&& !timer_repeating(self.0)
        &&& !timer_paused(self.0)
        &&& timer_elapsed(self.0) <= fire_cooldown()
        &&& timer_finished(self.0) == (timer_elapsed(self.0) == fire_cooldown())
    }

    pub open spec fn elapsed(&self) -> nat {
        timer_elapsed(self.0)
    }

    pub fn new() -> (c: Self)
        ensures
            c.wf(),
            c.elapsed() == 0,
    {
        FireCooldown(new_timer(FIRE_COOLDOWN_NANOS, false))
    }
}

/// Advances the cooldown by `delta` nanoseconds and says whether a shot may
/// go off: the fire key is held and the cooldown has run out.
pub fn fire_ready(cooldown: &mut FireCooldown, delta: u64, fire_held: bool) -> (ready: bool)
    requires
        old(cooldown).wf(),
    ensures
        final(cooldown).wf(),
        final(cooldown).elapsed() == cooldown_step(old(cooldown).elapsed(), delta as nat),
        ready == (fire_held && old(cooldown).elapsed() + delta >= fire_cooldown()),
{
    let ghost e0 = timer_elapsed(cooldown.0);
    tick_timer(&mut cooldown.0, delta);
    proof {
        assert(saturating_elapsed(e0, delta as nat) == e0 + delta);
    }
    fire_held && timer_is_finished(&cooldown.0)
}

/// Starts the cooldown over after a shot.
pub fn fire(cooldown: &mut FireCooldown)
    requires
        old(cooldown).wf(),
    ensures
        final(cooldown).wf(),
        final(cooldown).elapsed() == 0,
{
    reset_timer(&mut cooldown.0);
}

/// The kills of a frame form a maximal matching of bullets to enemies:
/// every kill pairs a bullet with an enemy it overlaps, bullets come in order
/// and each destroys at most one enemy, no enemy is destroyed twice, and no
/// overlapping bullet and enemy are both left over.
pub proof fn lemma_bullet_kills_matching(hits: Seq<Seq<bool>>)
    requires
        hits.len() <= usize::MAX,
        forall|b: int| 0 <= b < hits.len() ==> (#[trigger] hits[b]).len() <= usize::MAX,
    ensures
        forall|k: int|
            #![trigger bullet_kills(hits)[k]]
            0 <= k < bullet_kills(hits).len() ==> {
                let (b, e) = bullet_kills(hits)[k];
                &&& b < hits.len()
                &&& e < hits[b as int].len()
                &&& hits[b as int][e as int]
            },
        forall|k: int, l: int|
            0 <= k < l < bullet_kills(hits).len() ==> bullet_kills(hits)[k].0 < bullet_kills(
                hits,
            )[l].0,
        forall|k: int, l: int|
            0 <= k < l < bullet_kills(hits).len() ==> bullet_kills(hits)[k].1 != bullet_kills(
                hits,
            )[l].1,
        forall|b: int, e: int|
            0 <= b < hits.len() && 0 <= e < hits[b].len() && #[trigger] hits[b][e] ==> enemy_taken(
                bullet_kills(hits),
                e,
            ) || exists|k: int|
                0 <= k < bullet_kills(hits).len() && bullet_kills(hits)[k].0 == b,
    decreases hits.len(),
{
    if hits.len() > 0 {
        let prefix = hits.drop_last();
        assert forall|b: int| 0 <= b < prefix.len() implies #[trigger] prefix[b] == hits[b] by {}
        lemma_bullet_kills_matching(prefix);
        let prev = bullet_kills(prefix);
        let row = hits.last();
        let n = hits.len() - 1;
        lemma_first_free_is_first(row, prev, 0);
        let kills = bullet_kills(hits);
        assert forall|b: int| 0 <= b < n implies #[trigger] prefix[b] == hits[b] by {}
        assert forall|k: int| 0 <= k < prev.len() implies #[trigger] kills[k] == prev[k] by {}
        assert forall|b: int, e: int|
            0 <= b < hits.len() && 0 <= e < hits[b].len() && #[trigger] hits[b][e] implies enemy_taken(
            kills,
            e,
        ) || exists|k: int| 0 <= k < kills.len() && kills[k].0 == b by {
            if b < n {
                assert(prefix[b][e]);
                if enemy_taken(prev, e) {
                    let k = choose|k: int| 0 <= k < prev.len() && prev[k].1 == e;
                    assert(kills[k] == prev[k]);
                } else {
                    let k = choose|k: int| 0 <= k < prev.len() && prev[k].0 == b;
                    assert(kills[k] == prev[k]);
                }
            } else {
                match first_free_enemy(row, prev, 0) {
                    Some(x) => {
                        assert(kills[prev.len() as int].0 == b);
                    },
                    None => {
                        assert(row[e]);
                        let k = choose|k: int| 0 <= k < prev.len() && prev[k].1 == e;
                        assert(kills[k] == prev[k]);
                    },
                }
            }
        }
        match first_free_enemy(row, prev, 0) {
            Some(x) => {
                assert forall|k: int| 0 <= k < prev.len() implies #[trigger] prev[k].1 != x by {
                    if prev[k].1 == x {
                        assert(enemy_taken(prev, x));
                    }
                }
            },
            None => {},
        }
    }
}

/// Time on the cooldown after a run of frames, starting with `elapsed`.
pub open spec fn cooldown_over(elapsed: nat, deltas: Seq<nat>) -> nat
    decreases deltas.len(),
{
    if deltas.len() == 0 {
        elapsed
    } else {
        cooldown_over(cooldown_step(elapsed, deltas[0]), deltas.drop_first())
    }
}

/// The cooldown measures the time since the last shot: after a run of frames
/// it reads that time, capped at the cooldown, so the gun is ready in a frame
/// exactly when the time since the last shot, this frame included, reaches
/// the cooldown.
pub proof fn lemma_cooldown_measures_time(elapsed: nat, deltas: Seq<nat>, delta: nat)
    requires
        elapsed <= fire_cooldown(),
    ensures
        cooldown_over(elapsed, deltas) == if elapsed + total_time(deltas) >= fire_cooldown() {
            fire_cooldown()
        } else {
            elapsed + total_time(deltas)
        },
        (cooldown_over(elapsed, deltas) + delta >= fire_cooldown()) == (elapsed + total_time(
            deltas,
        ) + delta >= fire_cooldown()),
    decreases deltas.len(),
{
    if deltas.len() > 0 {
        lemma_cooldown_measures_time(cooldown_step(elapsed, deltas[0]), deltas.drop_first(), delta);
    }
}

} // verus!
