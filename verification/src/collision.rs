use vstd::prelude::*;
use crate::player::Health;

verus! {

/// Number of enemies a player overlaps.
pub open spec fn count_hits(row: Seq<bool>) -> int
    decreases row.len(),
{
    if row.len() == 0 {
        0
    } else {
        count_hits(row.drop_last()) + if row.last() {
            1int
        } else {
            0int
        }
    }
}

/// Lexicographic order on (player, enemy) pairs.
pub open spec fn pair_before(a: (usize, usize), b: (usize, usize)) -> bool {
    a.0 < b.0 || (a.0 == b.0 && a.1 < b.1)
}

pub proof fn lemma_count_hits_bounds(row: Seq<bool>, i: int)
    requires
        0 <= i <= row.len(),
    ensures
        0 <= count_hits(row.subrange(0, i)) <= count_hits(row),
        count_hits(row.subrange(0, i)) <= i,
    decreases row.len(),
{
    if i < row.len() {
        assert(row.drop_last() =~= row.subrange(0, row.len() - 1));
        lemma_count_hits_bounds(row.drop_last(), i);
        assert(row.drop_last().subrange(0, i) =~= row.subrange(0, i));
    } else {
        assert(row.subrange(0, i) =~= row);
        if row.len() > 0 {
            lemma_count_hits_bounds(row.drop_last(), i - 1);
            assert(row.drop_last().subrange(0, i - 1) =~= row.drop_last());
        }
    }
}

/// What one frame of player/enemy contact produced.
pub struct ContactReport {
    /// Each (player, enemy) pair in contact, in player-then-enemy order. Every
    /// pair despawns the enemy and sends one kill and one player-hit message.
    pub contacts: Vec<(usize, usize)>,
    /// A hit left a player with no health: the game moves to game over.
    pub game_over: bool,
}

/// Resolves contact between the kinetic players and the enemies for one frame.
/// `hits[p][e]` says whether player `p` overlaps enemy `e`. Every contact costs
/// the player one health; a contact after which the player's health is zero or
/// less ends the game.
pub fn detect_player_enemy_collisions(
    healths: &mut Vec<Health>,
    hits: &Vec<Vec<bool>>,
    n_enemies: usize,
) -> (report: ContactReport)
    requires
        hits.len() == old(healths).len(),
        forall|p: int| 0 <= p < hits.len() ==> (#[trigger] hits[p]).len() == n_enemies,
        forall|p: int|
            0 <= p < hits.len() ==> old(healths)[p].0 - count_hits(#[trigger] hits[p]@)
                >= i32::MIN,
    ensures
        final(healths).len() == old(healths).len(),
        forall|p: int|
            0 <= p < hits.len() ==> #[trigger] final(healths)[p].0 == old(healths)[p].0
                - count_hits(hits[p]@),
        forall|p: usize, e: usize|
            report.contacts@.contains((p, e)) <==> p < hits.len() && e < n_enemies
                && hits[p as int][e as int],
        forall|k: int, l: int|
            0 <= k < l < report.contacts.len() ==> pair_before(
                report.contacts[k],
                report.contacts[l],
            ),
        report.game_over <==> exists|p: int|
            0 <= p < hits.len() && count_hits(#[trigger] hits[p]@) > 0 && final(healths)[p].0
                <= 0,
{
    let mut contacts: Vec<(usize, usize)> = Vec::new();
    let mut game_over = false;
    let np = hits.len();
    let ghost old_h = healths@;
    let mut p: usize = 0;
    while p < np
        invariant
            np == hits.len(),
            np == healths.len(),
            old_h.len() == np,
            p <= np,
            forall|q: int| 0 <= q < hits.len() ==> (#[trigger] hits[q]).len() == n_enemies,
            forall|q: int|
                0 <= q < hits.len() ==> old_h[q].0 - count_hits(#[trigger] hits[q]@) >= i32::MIN,
            forall|q: int|
                0 <= q < p ==> #[trigger] healths[q].0 == old_h[q].0 - count_hits(hits[q]@),
            forall|q: int| p <= q < np ==> #[trigger] healths[q] == old_h[q],
            forall|q: usize, e: usize|
                contacts@.contains((q, e)) <==> q < p && e < n_enemies && hits[q as int][e as int],
            forall|k: int| 0 <= k < contacts.len() ==> (#[trigger] contacts[k]).0 < p,
            forall|k: int, l: int|
                0 <= k < l < contacts.len() ==> pair_before(contacts[k], contacts[l]),
            game_over <==> exists|q: int|
                0 <= q < p && count_hits(#[trigger] hits[q]@) > 0 && healths[q].0 <= 0,
        decreases np - p,
    {
        let row = &hits[p];
        let ghost rv = row@;
        let ghost go_before = game_over;
        let mut h: i32 = healths[p].0;
        let mut row_over = false;
        let mut e: usize = 0;
        while e < n_enemies
            invariant
                row@ == rv,
                rv.len() == n_enemies,
                e <= n_enemies,
                p < np,
                np == hits.len(),
                old_h.len() == np,
                forall|q: int| 0 <= q < hits.len() ==> (#[trigger] hits[q]).len() == n_enemies,
                hits[p as int]@ == rv,
                old_h[p as int].0 - count_hits(rv) >= i32::MIN,
                h == old_h[p as int].0 - count_hits(rv.subrange(0, e as int)),
                row_over <==> count_hits(rv.subrange(0, e as int)) > 0 && h <= 0,
                forall|q: usize, x: usize|
                    contacts@.contains((q, x)) <==> (q < p && x < n_enemies && hits[q as int][x as int])
                        || (q == p && x < e && rv[x as int]),
                forall|k: int|
                    0 <= k < contacts.len() ==> (#[trigger] contacts[k]).0 < p || (contacts[k].0
                        == p && contacts[k].1 < e),
                forall|k: int, l: int|
                    0 <= k < l < contacts.len() ==> pair_before(contacts[k], contacts[l]),
            decreases n_enemies - e,
        {
            proof {
                lemma_count_hits_bounds(rv, e + 1);
                lemma_count_hits_bounds(rv, e as int);
                let s1 = rv.subrange(0, e + 1);
                assert(s1.drop_last() =~= rv.subrange(0, e as int));
                assert(s1.last() == rv[e as int]);
                assert(count_hits(s1) == count_hits(rv.subrange(0, e as int)) + if rv[e as int] {
                    1int
                } else {
                    0int
                });
            }
            if row[e] {
                let ghost pre = contacts@;
                contacts.push((p, e));
                h = h - 1;
                if h <= 0 {
                    row_over = true;
                }
                proof {
                    assert forall|q: usize, x: usize|
                        contacts@.contains((q, x)) <==> (q < p && x < n_enemies
                            && hits[q as int][x as int]) || (q == p && x < e + 1 && rv[x as int]) by {
                        if contacts@.contains((q, x)) && (q, x) != (p, e) {
                            let k = choose|k: int| 0 <= k < contacts.len() && contacts[k] == (q, x);
                            assert(pre[k] == (q, x));
                        }
                        if pre.contains((q, x)) {
                            let k = choose|k: int| 0 <= k < pre.len() && pre[k] == (q, x);
                            assert(contacts[k] == (q, x));
                        }
                        if (q, x) == (p, e) {
                            assert(contacts[contacts.len() - 1] == (q, x));
                        }
                    }
                }
            }
            e = e + 1;
        }
        assert(rv.subrange(0, n_enemies as int) =~= rv);
        healths.set(p, Health(h));
        if row_over {
            game_over = true;
        }
        proof {
            assert forall|q: usize, x: usize|
                contacts@.contains((q, x)) <==> q < p + 1 && x < n_enemies
                    && hits[q as int][x as int] by {
                if q == p {
                    assert(hits[q as int] == hits[p as int]);
                }
            }
            if game_over {
                if !go_before {
                    assert(count_hits(hits[p as int]@) > 0 && healths[p as int].0 <= 0);
                }
            }
        }
        p = p + 1;
    }
    ContactReport { contacts, game_over }
}

/// A player that touches no enemy loses no health.
pub proof fn lemma_no_contact_no_damage(row: Seq<bool>)
    requires
        forall|e: int| 0 <= e < row.len() ==> !(#[trigger] row[e]),
    ensures
        count_hits(row) == 0,
    decreases row.len(),
{
    if row.len() > 0 {
        assert(forall|e: int| 0 <= e < row.len() - 1 ==> row.drop_last()[e] == row[e]);
        lemma_no_contact_no_damage(row.drop_last());
    }
}

} // verus!
