use vstd::prelude::*;
use crate::player::{Health, MAX_HEALTH};
use crate::score::Score;
use crate::collision::count_hits;

verus! {

/// Whether the run is going on or has ended.
#[derive(Clone, Copy, Debug, PartialEq, Eq, Structural)]
pub enum GameState {
    Playing,
    GameOver,
}

impl Default for GameState {
    fn default() -> (s: Self)
        ensures
            s == GameState::Playing,
    {
        GameState::Playing
    }
}

/// Every player is back at full health.
pub open spec fn all_full(healths: Seq<Health>) -> bool {
    forall|p: int| 0 <= p < healths.len() ==> (#[trigger] healths[p]).0 == MAX_HEALTH
}

/// Starts a new run when R is pressed on the game-over screen: the score goes
/// back to zero, every kinetic player gets full health, and the next state is
/// `Playing`. Returns the state to switch to, or `None` when nothing happens
/// (not game over, or R not pressed). The caller also despawns every enemy
/// and puts the players back at the origin at rest.
pub fn restart(
    state: GameState,
    r_just_pressed: bool,
    score: &mut Score,
    healths: &mut Vec<Health>,
) -> (next: Option<GameState>)
    ensures
        (state == GameState::GameOver && r_just_pressed) ==> {
            &&& next == Some(GameState::Playing)
            &&& final(score).0 == 0
            &&& final(healths).len() == old(healths).len()
            &&& all_full(final(healths)@)
        },
        !(state == GameState::GameOver && r_just_pressed) ==> {
            &&& next is None
            &&& final(score).0 == old(score).0
            &&& final(healths)@ == old(healths)@
        },
{
    if state != GameState::GameOver || !r_just_pressed {
        return None;
    }
    score.0 = 0;
    let n = healths.len();
    let mut i: usize = 0;
    while i < n
        invariant
            n == healths.len(),
            i <= n,
            forall|p: int| 0 <= p < i ==> (#[trigger] healths[p]).0 == MAX_HEALTH,
        decreases n - i,
    {
        healths.set(i, Health(MAX_HEALTH));
        i = i + 1;
    }
    Some(GameState::Playing)
}

/// After a restart every player has full health, so a frame in which no
/// player touches as many enemies as the maximum health cannot end the new
/// run: every player keeps some health.
pub proof fn lemma_restart_survives_first_contacts(healths: Seq<Health>, hits: Seq<Seq<bool>>)
    requires
        all_full(healths),
        hits.len() == healths.len(),
        forall|p: int| 0 <= p < hits.len() ==> count_hits(#[trigger] hits[p]) < MAX_HEALTH,
    ensures
        forall|p: int| 0 <= p < hits.len() ==> healths[p].0 - count_hits(#[trigger] hits[p]) > 0,
{
    assert forall|p: int| 0 <= p < hits.len() implies healths[p].0 - count_hits(
        #[trigger] hits[p],
    ) > 0 by {
        assert(healths[p].0 == MAX_HEALTH);
    }
}

} // verus!
