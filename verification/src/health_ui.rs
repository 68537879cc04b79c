use vstd::prelude::*;
use crate::player::{Health, MAX_HEALTH};

verus! {

/// Pixel distance of the first pip from the left edge of the screen.
pub const PIP_MARGIN_PX: i32 = 10;

/// Side of a pip, in pixels.
pub const PIP_SIZE_PX: i32 = 18;

/// Gap between two pips, in pixels.
pub const PIP_GAP_PX: i32 = 4;

/// The health the display shows: that of the one kinetic player, or zero
/// when there is not exactly one.
pub open spec fn shown_health(players: Seq<Health>) -> int {
    if players.len() == 1 {
        players[0].0 as int
    } else {
        0
    }
}

pub fn displayed_health(players: &Vec<Health>) -> (hp: i32)
    ensures
        hp == shown_health(players@),
        players.len() == 1 ==> hp == players[0].0,
        players.len() != 1 ==> hp == 0,
{
    if players.len() == 1 {
        players[0].0
    } else {
        0
    }
}

/// Pip `pip` is lit while the health is above its index.
pub fn pip_active(pip: i32, hp: i32) -> (lit: bool)
    ensures
        lit == (pip < hp),
{
    pip < hp
}

/// Left edge, in pixels, of pip `pip` in the row of pips.
pub fn pip_left_px(pip: i32) -> (left: i32)
    requires
        0 <= pip < MAX_HEALTH,
    ensures
        left == PIP_MARGIN_PX + pip * (PIP_SIZE_PX + PIP_GAP_PX),
{
    PIP_MARGIN_PX + pip * (PIP_SIZE_PX + PIP_GAP_PX)
}

/// With exactly one kinetic player the display shows that player's health,
/// whatever it is; with none or several it shows zero. At full health every
/// pip is lit.
pub proof fn lemma_single_player_health_shown(h: Health, players: Seq<Health>)
    ensures
        shown_health(seq![h]) == h.0,
        players.len() != 1 ==> shown_health(players) == 0,
        h.0 == MAX_HEALTH ==> lit_pips(MAX_HEALTH as int, shown_health(seq![h])) == MAX_HEALTH,
{
    lemma_lit_pips_show_health(MAX_HEALTH as int, shown_health(seq![h]));
}

/// Number of lit pips among the first `n`.
pub open spec fn lit_pips(n: int, hp: int) -> int
    decreases n,
{
    if n <= 0 {
        0
    } else {
        lit_pips(n - 1, hp) + if n - 1 < hp {
            1int
        } else {
            0int
        }
    }
}

/// The row shows the health, clamped to the number of pips: as many pips are
/// lit as the player has health, none when it is zero or below, all when it
/// is above the maximum.
pub proof fn lemma_lit_pips_show_health(n: int, hp: int)
    requires
        n >= 0,
    ensures
        lit_pips(n, hp) == if hp <= 0 {
            0
        } else if hp >= n {
            n
        } else {
            hp
        },
    decreases n,
{
    if n > 0 {
        lemma_lit_pips_show_health(n - 1, hp);
    }
}

} // verus!
