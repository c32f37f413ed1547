use vstd::prelude::*;
use crate::hitboxes::{Hitbox, Point, are_hitboxes_colliding, colliding};

verus! {

/// A currency pickup lying in the world.
#[derive(Clone, Copy, Debug)]
pub struct Collectible {
    /// Currency type, an index of the holdings.
    pub collectible_type: usize,
    pub hitbox: Hitbox,
    pub position: Point,
}

/// The pickups of `cs` that the defended point, with hitbox `h` at `at`,
/// does not touch.
pub open spec fn untouched(cs: Seq<Collectible>, h: Hitbox, at: Point) -> Seq<Collectible>
    decreases cs.len(),
{
    if cs.len() == 0 {
        Seq::empty()
    } else {
        let rest = untouched(cs.drop_last(), h, at);
        let c = cs.last();
        if colliding(h, at, c.hitbox, c.position) {
            rest
        } else {
            rest.push(c)
        }
    }
}

/// How many pickups of `cs` of currency type `t` the defended point, with
/// hitbox `h` at `at`, touches.
pub open spec fn touched_count(cs: Seq<Collectible>, t: int, h: Hitbox, at: Point) -> int
    decreases cs.len(),
{
    if cs.len() == 0 {
        0
    } else {
        let rest = touched_count(cs.drop_last(), t, h, at);
        let c = cs.last();
        if colliding(h, at, c.hitbox, c.position) && c.collectible_type == t {
            rest + 1
        } else {
            rest
        }
    }
}

pub proof fn lemma_touched_count_bounded(cs: Seq<Collectible>, t: int, h: Hitbox, at: Point)
    ensures
        0 <= touched_count(cs, t, h, at) <= cs.len(),
    decreases cs.len(),
{
    if cs.len() > 0 {
        lemma_touched_count_bounded(cs.drop_last(), t, h, at);
    }
}

/// Collects every pickup that the defended point's hitbox touches: its
/// currency count grows by one and the pickup goes. Returns the pickups that
/// remain, in order.
pub fn detect_collisions(
    player_hitbox: &Hitbox,
    player_position: &Point,
    collectibles: &Vec<Collectible>,
    holdings: &mut Vec<i32>,
) -> (r: Vec<Collectible>)
    requires
        forall|i: int|
            0 <= i < collectibles@.len() ==> (#[trigger] collectibles@[i]).collectible_type
                < old(holdings)@.len(),
        forall|t: int|
            0 <= t < old(holdings)@.len() ==> old(holdings)@[t] + collectibles@.len()
                <= i32::MAX,
    ensures
        r@ == untouched(collectibles@, *player_hitbox, *player_position),
        final(holdings)@.len() == old(holdings)@.len(),
        forall|t: int|
            0 <= t < old(holdings)@.len() ==> #[trigger] final(holdings)@[t] == old(holdings)@[t]
                + touched_count(collectibles@, t, *player_hitbox, *player_position),
        forall|i: int| 0 <= i < r@.len() ==> collectibles@.contains(#[trigger] r@[i]),
{
    let ghost cs = collectibles@;
    let ghost h0 = holdings@;
    let mut kept: Vec<Collectible> = Vec::new();
    let mut i: usize = 0;
    while i < collectibles.len()
        invariant
            i <= cs.len(),
            cs == collectibles@,
            holdings@.len() == h0.len(),
            forall|k: int| 0 <= k < cs.len() ==> (#[trigger] cs[k]).collectible_type < h0.len(),
            forall|t: int| 0 <= t < h0.len() ==> h0[t] + cs.len() <= i32::MAX,
            kept@ == untouched(cs.subrange(0, i as int), *player_hitbox, *player_position),
            forall|k: int| 0 <= k < kept@.len() ==> cs.contains(#[trigger] kept@[k]),
            forall|t: int|
                0 <= t < h0.len() ==> #[trigger] holdings@[t] == h0[t] + touched_count(
                    cs.subrange(0, i as int),
                    t,
                    *player_hitbox,
                    *player_position,
                ),
        decreases cs.len() - i,
    {
        let c = collectibles[i];
        let ghost pre = cs.subrange(0, i as int);
        let ghost next = cs.subrange(0, i as int + 1);
        proof {
            assert(next.drop_last() =~= pre);
            assert(next.last() == c);
            lemma_touched_count_bounded(pre, c.collectible_type as int, *player_hitbox, *player_position);
        }
        if are_hitboxes_colliding(player_hitbox, player_position, &c.hitbox, &c.position) {
            let t = c.collectible_type;
            let v = holdings[t];
            holdings.set(t, v + 1);
        } else {
            kept.push(c);
        }
        i += 1;
    }
    proof {
        assert(cs.subrange(0, cs.len() as int) =~= cs);
    }
    kept
}

} // verus!
