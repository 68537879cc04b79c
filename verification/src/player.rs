use vstd::prelude::*;

verus! {

/// Health a player starts (and restarts) with.
pub const MAX_HEALTH: i32 = 3;

/// Hit points of a player; the run ends when the kinetic player's drops to zero.
pub struct Health(pub i32);

impl Health {
    /// The health a player is spawned with.
    pub fn full() -> (h: Self)
        ensures
            h.0 == MAX_HEALTH,
    {
        Health(MAX_HEALTH)
    }
}

/// One axis of the input direction: +1, 0 or -1.
pub open spec fn axis_input(positive: bool, negative: bool) -> int {
    (if positive {
        1int
    } else {
        0int
    }) - (if negative {
        1int
    } else {
        0int
    })
}

/// The movement direction that the held keys ask for, before it is normalized:
/// `up` adds one to y, `down` takes one off, `left` takes one off x and
/// `right` adds one; opposite keys cancel.
pub fn input_direction(up: bool, down: bool, left: bool, right: bool) -> (dir: (i32, i32))
    ensures
        dir.0 == axis_input(right, left),
        dir.1 == axis_input(up, down),
{
    let mut x: i32 = 0;
    let mut y: i32 = 0;
    if up {
        y = y + 1;
    }
    if down {
        y = y - 1;
    }
    if left {
        x = x - 1;
    }
    if right {
        x = x + 1;
    }
    (x, y)
}

/// Holding both keys of an axis is the same as holding neither, and each
/// axis of the input direction is -1, 0 or +1.
pub proof fn lemma_opposite_keys_cancel(positive: bool, negative: bool)
    ensures
        axis_input(true, true) == axis_input(false, false) == 0,
        -1 <= axis_input(positive, negative) <= 1,
        axis_input(positive, negative) == -axis_input(negative, positive),
{
}

} // verus!
