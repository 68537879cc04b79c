use bevy::time::Timer;
use rand::rngs::ThreadRng;
use vstd::prelude::*;
use crate::rng::random_below;
use crate::timer::{
    new_timer, tick_timer, timer_just_finished, timer_elapsed, timer_duration, timer_repeating,
    timer_paused, saturating_elapsed,
};

verus! {

/// Nanoseconds between two enemy spawns: one second.
pub const SPAWN_INTERVAL_NANOS: u64 = 1_000_000_000;

/// The spawn interval in nanoseconds.
pub open spec fn spawn_interval() -> nat {
    SPAWN_INTERVAL_NANOS as nat
}

/// Side length of an enemy, in world units.
pub const ENEMY_SIZE: i32 = 30;

/// Enemy speed, in world units per second.
pub const ENEMY_SPEED: i32 = 200;

/// Half the arena's width and depth, in world units.
pub const WORLD_HALF_W: i32 = 640;
pub const WORLD_HALF_H: i32 = 360;

/// Whether a frame of `delta` nanoseconds, with `elapsed` already on the
/// spawn timer, spawns an enemy: the timer completes at least once (its
/// completion count is kept as a `u32`).
pub open spec fn spawn_fires(elapsed: nat, delta: nat) -> bool {
    ((elapsed + delta) / spawn_interval()) as u32 > 0
}

/// The repeating timer that paces enemy spawns.
pub struct SpawnTimer(pub Timer);

impl SpawnTimer {
    /// A one-second repeating timer that is running and has not yet reached
    /// its period.
    pub open spec fn wf(&self) -> bool {
        &&& timer_duration(self.0) == spawn_interval()
        &&& timer_repeating(self.0)
        &&& !timer_paused(self.0)
        &&& timer_elapsed(self.0) < spawn_interval()
    }

    pub open spec fn elapsed(&self) -> nat {
        timer_elapsed(self.0)
    }

    pub fn new() -> (t: Self)
        ensures
            t.wf(),
            t.elapsed() == 0,
    {
        SpawnTimer(new_timer(SPAWN_INTERVAL_NANOS, true))
    }
}

/// Advances the spawn timer by `delta` nanoseconds and says whether an enemy
/// spawns this frame (`spawn_fires`: the time on the timer reaches a whole
/// interval, unless a single frame spans a multiple of 2^32 intervals, as the
/// timer counts completions in a `u32`). The timer keeps what is left over.
pub fn enemy_spawn_due(timer: &mut SpawnTimer, delta: u64) -> (due: bool)
    requires
        old(timer).wf(),
    ensures
        final(timer).wf(),
        due == spawn_fires(old(timer).elapsed(), delta as nat),
        final(timer).elapsed() == (old(timer).elapsed() + delta as nat) % spawn_interval(),
{
    let ghost e0 = timer_elapsed(timer.0);
    tick_timer(&mut timer.0, delta);
    proof {
        let e = saturating_elapsed(e0, delta as nat);
        assert(e == e0 + delta);
        let d = spawn_interval();
        if e >= d {
            assert(e % d < d) by (nonlinear_arith)
                requires
                    d > 0,
            ;
            assert(((e % d) as u64) as nat == e % d);
        } else {
            assert(e % d == e && e / d == 0) by (nonlinear_arith)
                requires
                    0 <= e < d,
            ;
        }
    }
    timer_just_finished(&timer.0)
}

/// The side of the arena an enemy comes in from.
#[derive(Clone, Copy, Debug, PartialEq, Eq, Structural)]
pub enum SpawnEdge {
    /// The far side (negative z).
    Top,
    /// The near side (positive z).
    Bottom,
    /// Negative x.
    Left,
    /// Positive x.
    Right,
}

/// The edge numbered `i` in the order top, bottom, left, right; any number
/// past two is the right edge.
pub open spec fn edge_of_index(i: u32) -> SpawnEdge {
    if i == 0 {
        SpawnEdge::Top
    } else if i == 1 {
        SpawnEdge::Bottom
    } else if i == 2 {
        SpawnEdge::Left
    } else {
        SpawnEdge::Right
    }
}

/// The edge numbered `i` (see `edge_of_index`).
pub fn edge_from_index(i: u32) -> (edge: SpawnEdge)
    ensures
        edge == edge_of_index(i),
{
    if i == 0 {
        SpawnEdge::Top
    } else if i == 1 {
        SpawnEdge::Bottom
    } else if i == 2 {
        SpawnEdge::Left
    } else {
        SpawnEdge::Right
    }
}

/// Picks the edge for the next enemy: exactly one number is drawn in `0..4`
/// (one call of `random_below` that takes the generator from its state on
/// entry to its state on return), and the edge is that number as
/// `edge_of_index` reads it. As `Rng::random_range` draws uniformly, each
/// edge comes up a quarter of the time (see `lemma_edges_one_per_index`).
pub fn choose_spawn_edge(rng: &mut ThreadRng) -> (edge: SpawnEdge)
    ensures
        exists|i: u32, m: &mut ThreadRng|
            #![trigger call_ensures(random_below, (m, 4u32), i)]
            call_ensures(random_below, (m, 4u32), i) && *m == *old(rng)
                && *final(m) == *final(rng) && i < 4 && edge == edge_of_index(i),
{
    // called through a function value, so that the draw is recorded in `call_ensures`
    let draw = random_below;
    let i = draw(rng, 4);
    edge_from_index(i)
}

/// The four draws `0..4` give the four edges, each exactly once.
pub proof fn lemma_edges_one_per_index(i: u32, j: u32, edge: SpawnEdge)
    ensures
        i < 4 && j < 4 && edge_of_index(i) == edge_of_index(j) ==> i == j,
        exists|k: u32| k < 4 && edge_of_index(k) == edge,
{
    match edge {
        SpawnEdge::Top => assert(edge_of_index(0) == edge),
        SpawnEdge::Bottom => assert(edge_of_index(1) == edge),
        SpawnEdge::Left => assert(edge_of_index(2) == edge),
        SpawnEdge::Right => assert(edge_of_index(3) == edge),
    }
}

/// Where and how an enemy enters from one edge. One coordinate is drawn at
/// random across the arena (x when `random_x`, else z); the other is fixed
/// just outside the arena. The velocity is in world units per second, with
/// y pointing away from the camera (world -z).
pub struct SpawnPlan {
    pub random_x: bool,
    pub fixed: i32,
    pub velocity: (i32, i32),
}

pub open spec fn plan_of(edge: SpawnEdge) -> SpawnPlan {
    match edge {
        SpawnEdge::Top => SpawnPlan {
            random_x: true,
            fixed: (-WORLD_HALF_H - ENEMY_SIZE) as i32,
            velocity: (0, (-ENEMY_SPEED) as i32),
        },
        SpawnEdge::Bottom => SpawnPlan {
            random_x: true,
            fixed: (WORLD_HALF_H + ENEMY_SIZE) as i32,
            velocity: (0, ENEMY_SPEED),
        },
        SpawnEdge::Left => SpawnPlan {
            random_x: false,
            fixed: (-WORLD_HALF_W - ENEMY_SIZE) as i32,
            velocity: (ENEMY_SPEED, 0),
        },
        SpawnEdge::Right => SpawnPlan {
            random_x: false,
            fixed: (WORLD_HALF_W + ENEMY_SIZE) as i32,
            velocity: ((-ENEMY_SPEED) as i32, 0),
        },
    }
}

/// Lays out the spawn of an enemy from `edge`.
pub fn spawn_plan(edge: SpawnEdge) -> (plan: SpawnPlan)
    ensures
        plan == plan_of(edge),
{
    match edge {
        SpawnEdge::Top => SpawnPlan {
            random_x: true,
            fixed: -WORLD_HALF_H - ENEMY_SIZE,
            velocity: (0, -ENEMY_SPEED),
        },
        SpawnEdge::Bottom => SpawnPlan {
            random_x: true,
            fixed: WORLD_HALF_H + ENEMY_SIZE,
            velocity: (0, ENEMY_SPEED),
        },
        SpawnEdge::Left => SpawnPlan {
            random_x: false,
            fixed: -WORLD_HALF_W - ENEMY_SIZE,
            velocity: (ENEMY_SPEED, 0),
        },
        SpawnEdge::Right => SpawnPlan {
            random_x: false,
            fixed: WORLD_HALF_W + ENEMY_SIZE,
            velocity: (-ENEMY_SPEED, 0),
        },
    }
}

/// Sum of a run of frame lengths.
pub open spec fn total_time(deltas: Seq<nat>) -> nat
    decreases deltas.len(),
{
    if deltas.len() == 0 {
        0
    } else {
        deltas[0] + total_time(deltas.drop_first())
    }
}

/// Number of enemies spawned over a run of frames, starting with `elapsed`
/// on the spawn timer.
pub open spec fn spawns_over(elapsed: nat, deltas: Seq<nat>) -> nat
    decreases deltas.len(),
{
    if deltas.len() == 0 {
        0
    } else {
        (if spawn_fires(elapsed, deltas[0]) {
            1nat
        } else {
            0nat
        }) + spawns_over((elapsed + deltas[0]) % spawn_interval(), deltas.drop_first())
    }
}

/// While every frame is shorter than the spawn interval, one enemy spawns
/// per whole interval of play: over a run of frames the number of spawns is
/// the number of intervals that the time on the timer plus the frames covers.
pub proof fn lemma_one_spawn_per_interval(elapsed: nat, deltas: Seq<nat>)
    requires
        elapsed < spawn_interval(),
        forall|i: int| 0 <= i < deltas.len() ==> #[trigger] deltas[i] < spawn_interval(),
    ensures
        spawns_over(elapsed, deltas) == (elapsed + total_time(deltas)) / spawn_interval(),
    decreases deltas.len(),
{
    let d = spawn_interval();
    if deltas.len() == 0 {
        assert(elapsed / d == 0) by (nonlinear_arith)
            requires
                elapsed < d,
                d > 0,
        ;
    } else {
        let rest = deltas.drop_first();
        let a = elapsed + deltas[0];
        let r0 = a % d;
        let q0 = a / d;
        assert(a == q0 * d + r0 && 0 <= r0 < d && 0 <= q0 <= 1) by (nonlinear_arith)
            requires
                a < 2 * d,
                d > 0,
                q0 == a / d,
                r0 == a % d,
                a >= 0,
        ;
        assert(forall|i: int| 0 <= i < rest.len() ==> rest[i] == deltas[i + 1]);
        lemma_one_spawn_per_interval(r0, rest);
        let sr = total_time(rest);
        let q1 = (r0 + sr) / d;
        let r1 = (r0 + sr) % d;
        assert(r0 + sr == q1 * d + r1 && 0 <= r1 < d) by (nonlinear_arith)
            requires
                d > 0,
                q1 == (r0 + sr) / d,
                r1 == (r0 + sr) % d,
                r0 + sr >= 0,
        ;
        assert(elapsed + total_time(deltas) == (q0 + q1) * d + r1) by (nonlinear_arith)
            requires
                a == q0 * d + r0,
                r0 + sr == q1 * d + r1,
                elapsed + total_time(deltas) == a + sr,
        ;
        vstd::arithmetic::div_mod::lemma_fundamental_div_mod_converse(
            (elapsed + total_time(deltas)) as int,
            d as int,
            (q0 + q1) as int,
            r1 as int,
        );
        assert((q0 as u32) as nat == q0);
    }
}

/// An enemy enters just outside the arena, on the coordinate the edge fixes,
/// but inside the bounds past which enemies are despawned, and heads into
/// the arena (velocity y points to world -z).
pub proof fn lemma_spawn_enters_arena(edge: SpawnEdge)
    ensures
        ({
            let plan = plan_of(edge);
            let half = if plan.random_x {
                WORLD_HALF_H
            } else {
                WORLD_HALF_W
            };
            let limit = half + 2 * ENEMY_SIZE;
            let inward = if plan.random_x {
                -plan.velocity.1
            } else {
                plan.velocity.0 as int
            };
            &&& half < plan.fixed || plan.fixed < -half
            &&& -limit <= plan.fixed <= limit
            &&& inward * plan.fixed < 0
            &&& (if plan.random_x {
                plan.velocity.0
            } else {
                plan.velocity.1
            }) == 0
        }),
{
    match edge {
        SpawnEdge::Top => assert(200 * -390 < 0),
        SpawnEdge::Bottom => assert(-200 * 390 < 0),
        SpawnEdge::Left => assert(200 * -670 < 0),
        SpawnEdge::Right => assert(-200 * 670 < 0),
    }
}

} // verus!
