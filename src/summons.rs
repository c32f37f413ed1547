use vstd::prelude::*;
use crate::hitboxes::Point;
use crate::helpers::{
    Heading, move_character, moved_character, movable, written, DELTA_LIMIT, SLOT_LIMIT,
};
use crate::characters::table_wf;
use crate::helpers::{is_direction, diff, lemma_square_bound, norm2, normalize, normalized, slots_in_world, vector_subtract};
use crate::characters::{Character, CharacterInfo, SummonType, SummonTypes};
use crate::damage::types_valid;
use crate::enemies::{fired_by, reloaded};
use crate::projectiles::Projectile;
use crate::registry::PositionRegistry;

verus! {

/// The first position of `slots` nearest to `from`, if any slot is live.
pub open spec fn nearest(slots: Seq<Option<Point>>, from: Point) -> Option<Point>
    decreases slots.len(),
{
    if slots.len() == 0 {
        None
    } else {
        let best = nearest(slots.drop_last(), from);
        match slots.last() {
            None => best,
            Some(p) => match best {
                None => Some(p),
                Some(b) => if norm2(diff(p, from)) < norm2(diff(b, from)) {
                    Some(p)
                } else {
                    best
                },
            },
        }
    }
}

/// An ally of type `info` that shoots: it is not melee and has a firing
/// rate and a projectile type.
pub open spec fn shooter(info: CharacterInfo) -> bool {
    info.summon_type != Some(SummonType::Melee) && info.firing_rate is Some
        && info.projectile_types_index is Some
}

/// The ally `c` of type `info` is ready to fire at `now`.
pub open spec fn ready(c: Character, info: CharacterInfo, now: u64) -> bool {
    shooter(info) && c.last_shot is Some && reloaded(
        c.last_shot->Some_0,
        info.firing_rate->Some_0,
        now,
    )
}

/// The allies of `cs` after their turn to shoot: a ready one restarts its reload.
pub open spec fn readied(cs: Seq<Character>, types: Seq<CharacterInfo>, now: u64) -> Seq<Character> {
    Seq::new(
        cs.len(),
        |i: int|
            if ready(cs[i], types[cs[i].type_index as int], now) {
                Character { last_shot: Some(now), ..cs[i] }
            } else {
                cs[i]
            },
    )
}

/// The shot of a ready ally `c`: towards the nearest live hostile, if any.
pub open spec fn ally_shot(
    c: Character,
    info: CharacterInfo,
    slots: Seq<Option<Point>>,
    now: u64,
) -> Option<Projectile> {
    if ready(c, info, now) && nearest(slots, c.position) is Some {
        Some(
            Projectile {
                position: c.position,
                direction_vector: normalized(diff(nearest(slots, c.position)->Some_0, c.position)),
                projectile_types_index: info.projectile_types_index->Some_0,
            },
        )
    } else {
        None
    }
}

/// The shots of the allies of `cs`, in order.
pub open spec fn ally_volley(
    cs: Seq<Character>,
    types: Seq<CharacterInfo>,
    slots: Seq<Option<Point>>,
    now: u64,
) -> Seq<Projectile>
    decreases cs.len(),
{
    if cs.len() == 0 {
        Seq::empty()
    } else {
        let rest = ally_volley(cs.drop_last(), types, slots, now);
        let c = cs.last();
        match ally_shot(c, types[c.type_index as int], slots, now) {
            Some(p) => rest.push(p),
            None => rest,
        }
    }
}

proof fn lemma_nearest_in_world(slots: Seq<Option<Point>>, from: Point)
    requires
        slots_in_world(slots),
    ensures
        nearest(slots, from) matches Some(p) ==> p.in_world(),
    decreases slots.len(),
{
    if slots.len() > 0 {
        assert(slots_in_world(slots.drop_last()));
        lemma_nearest_in_world(slots.drop_last(), from);
        assert(slots[slots.len() - 1] == slots.last());
    }
}

/// Finds the first live position nearest to `from`.
fn find_nearest(positions: &PositionRegistry, from: &Point) -> (r: Option<Point>)
    requires
        slots_in_world(positions.0@),
        from.in_world(),
    ensures
        r == nearest(positions.0@, *from),
{
    let ghost slots = positions.0@;
    let mut best: Option<Point> = None;
    let mut best_d: i128 = 0;
    let mut i: usize = 0;
    while i < positions.0.len()
        invariant
            i <= slots.len(),
            slots == positions.0@,
            slots_in_world(slots),
            from.in_world(),
            best == nearest(slots.subrange(0, i as int), *from),
            best matches Some(b) ==> best_d == norm2(diff(b, *from)) && b.in_world(),
        decreases slots.len() - i,
    {
        proof {
            let next = slots.subrange(0, i as int + 1);
            assert(next.drop_last() =~= slots.subrange(0, i as int));
            assert(next.last() == slots[i as int]);
        }
        match positions.0[i] {
            Some(p) => {
                assert(slots[i as int] matches Some(q) ==> q.in_world());
                let d = vector_subtract(&p, from);
                let dx = d.x as i128;
                let dy = d.y as i128;
                proof {
                    lemma_square_bound(dx as int);
                    lemma_square_bound(dy as int);
                }
                let dist = dx * dx + dy * dy;
                match best {
                    None => {
                        best = Some(p);
                        best_d = dist;
                    },
                    Some(_) => {
                        if dist < best_d {
                            best = Some(p);
                            best_d = dist;
                        }
                    },
                }
            },
            None => {},
        }
        i += 1;
    }
    proof {
        assert(slots.subrange(0, slots.len() as int) =~= slots);
    }
    best
}

/// Lets each ready ranged ally or sentry fire at the nearest live hostile.
/// A ready ally restarts its reload whether or not a hostile is left.
/// Returns the new projectiles, in order.
pub fn shoot_ranged_attacks(
    summons: &mut Vec<Character>,
    enemy_positions: &PositionRegistry,
    summon_types: &SummonTypes,
    now: u64,
) -> (r: Vec<Projectile>)
    requires
        types_valid(old(summons)@, summon_types.0@),
        slots_in_world(enemy_positions.0@),
        forall|i: int| 0 <= i < old(summons)@.len() ==> (#[trigger] old(summons)@[i]).position.in_world(),
    ensures
        final(summons)@.len() == old(summons)@.len(),
        forall|i: int|
            0 <= i < old(summons)@.len() ==> #[trigger] final(summons)@[i] == (if ready(
                old(summons)@[i],
                summon_types.0@[old(summons)@[i].type_index as int],
                now,
            ) {
                Character { last_shot: Some(now), ..old(summons)@[i] }
            } else {
                old(summons)@[i]
            }),
        r@ == ally_volley(old(summons)@, summon_types.0@, enemy_positions.0@, now),
        forall|j: int|
            0 <= j < r@.len() ==> is_direction((#[trigger] r@[j]).direction_vector) && exists|k: int|
                0 <= k < old(summons)@.len() && fired_by(
                    r@[j],
                    old(summons)@[k],
                    summon_types.0@[old(summons)@[k].type_index as int],
                ),
{
    let ghost s0 = summons@;
    let ghost st = summon_types.0@;
    let ghost slots = enemy_positions.0@;
    let mut shots: Vec<Projectile> = Vec::new();
    let mut i: usize = 0;
    while i < summons.len()
        invariant
            i <= summons@.len() == s0.len(),
            st == summon_types.0@,
            slots == enemy_positions.0@,
            types_valid(s0, st),
            slots_in_world(slots),
            forall|k: int| 0 <= k < s0.len() ==> (#[trigger] s0[k]).position.in_world(),
            forall|k: int|
                0 <= k < i ==> #[trigger] summons@[k] == (if ready(
                    s0[k],
                    st[s0[k].type_index as int],
                    now,
                ) {
                    Character { last_shot: Some(now), ..s0[k] }
                } else {
                    s0[k]
                }),
            forall|k: int| i <= k < s0.len() ==> #[trigger] summons@[k] == s0[k],
            shots@ == ally_volley(s0.subrange(0, i as int), st, slots, now),
            forall|j: int|
                0 <= j < shots@.len() ==> is_direction((#[trigger] shots@[j]).direction_vector)
                    && exists|k: int| 0 <= k < s0.len() && fired_by(shots@[j], s0[k], st[s0[k].type_index as int]),
        decreases s0.len() - i,
    {
        let mut c = summons[i];
        let info = &summon_types.0[c.type_index];
        proof {
            let next = s0.subrange(0, i as int + 1);
            assert(next.drop_last() =~= s0.subrange(0, i as int));
            assert(next.last() == s0[i as int]);
        }
        let melee = match info.summon_type {
            Some(SummonType::Melee) => true,
            _ => false,
        };
        if !melee {
            match (c.last_shot, info.firing_rate, info.projectile_types_index) {
                (Some(t), Some(rate), Some(index)) => {
                    if now >= t && now - t > rate {
                        c.last_shot = Some(now);
                        match find_nearest(enemy_positions, &c.position) {
                            Some(target) => {
                                proof {
                                    lemma_nearest_in_world(slots, c.position);
                                }
                                let d = vector_subtract(&target, &c.position);
                                let direction = normalize(&d);
                                shots.push(
                                    Projectile {
                                        position: c.position,
                                        direction_vector: direction,
                                        projectile_types_index: index,
                                    },
                                );
                            },
                            None => {},
                        }
                    }
                },
                _ => {},
            }
        }
        summons.set(i, c);
        i += 1;
    }
    proof {
        assert(s0.subrange(0, s0.len() as int) =~= s0);
    }
    shots
}

/// Radius that an ally keeps clear of other allies.
pub const SUMMON_RADIUS: i64 = 16_000;

/// Where an ally of type `info` heads this tick, or None when it stays:
/// sentries never move, and ranged and melee allies move only while their
/// category is active, towards the cursor or, without one, as before.
pub open spec fn summon_heading(
    info: CharacterInfo,
    cursor: Option<Point>,
    ranged_active: bool,
    melee_active: bool,
) -> Option<Heading> {
    let moving = match info.summon_type {
        Some(SummonType::Ranged) => ranged_active,
        Some(SummonType::Melee) => melee_active,
        _ => false,
    };
    if moving {
        Some(
            match cursor {
                Some(t) => Heading::Cursor(t),
                None => Heading::Keep,
            },
        )
    } else {
        None
    }
}

/// The allies and their registry after the first `n` allies of `cs` took
/// their turn to move.
pub open spec fn summons_moved(
    cs: Seq<Character>,
    slots: Seq<Option<Point>>,
    cursor: Option<Point>,
    ranged_active: bool,
    melee_active: bool,
    types: Seq<CharacterInfo>,
    dt: int,
    n: int,
) -> (Seq<Character>, Seq<Option<Point>>)
    decreases n,
{
    if n <= 0 {
        (cs, slots)
    } else {
        let (cs1, sl1) = summons_moved(cs, slots, cursor, ranged_active, melee_active, types, dt, n - 1);
        let c = cs1[n - 1];
        let info = types[c.type_index as int];
        match summon_heading(info, cursor, ranged_active, melee_active) {
            Some(h) => {
                let c2 = moved_character(c, sl1, SUMMON_RADIUS as int, h, info.speed as int, dt);
                (cs1.update(n - 1, c2), written(sl1, c.position_index as int, c2.position))
            },
            None => (cs1, sl1),
        }
    }
}

/// Moves the allies whose category is active, in order: separation from
/// the other allies, then a step towards the cursor while it is farther
/// than the dead zone; without a cursor an ally keeps its direction.
pub fn move_summons(
    summons: &mut Vec<Character>,
    cursor_position: Option<Point>,
    ranged_active: bool,
    melee_active: bool,
    summon_types: &SummonTypes,
    summon_positions: &mut PositionRegistry,
    delta: u64,
)
    requires
        types_valid(old(summons)@, summon_types.0@),
        table_wf(summon_types.0@),
        forall|i: int|
            0 <= i < old(summons)@.len() ==> movable(
                #[trigger] old(summons)@[i],
                old(summon_positions).0@,
            ),
        slots_in_world(old(summon_positions).0@),
        old(summon_positions).0@.len() <= SLOT_LIMIT,
        cursor_position matches Some(c) ==> c.in_world(),
        delta <= DELTA_LIMIT,
    ensures
        (final(summons)@, final(summon_positions).0@) == summons_moved(
            old(summons)@,
            old(summon_positions).0@,
            cursor_position,
            ranged_active,
            melee_active,
            summon_types.0@,
            delta as int,
            old(summons)@.len() as int,
        ),
        final(summons)@.len() == old(summons)@.len(),
        final(summon_positions).0@.len() == old(summon_positions).0@.len(),
        types_valid(final(summons)@, summon_types.0@),
        forall|i: int|
            0 <= i < final(summons)@.len() ==> movable(
                #[trigger] final(summons)@[i],
                final(summon_positions).0@,
            ),
        slots_in_world(final(summon_positions).0@),
{
    let ghost s0 = summons@;
    let ghost r0 = summon_positions.0@;
    let ghost st = summon_types.0@;
    let mut i: usize = 0;
    while i < summons.len()
        invariant
            i <= summons@.len() == s0.len(),
            st == summon_types.0@,
            types_valid(summons@, st),
            table_wf(st),
            forall|k: int| 0 <= k < summons@.len() ==> movable(#[trigger] summons@[k], summon_positions.0@),
            slots_in_world(summon_positions.0@),
            summon_positions.0@.len() == r0.len() <= SLOT_LIMIT,
            cursor_position matches Some(c) ==> c.in_world(),
            delta <= DELTA_LIMIT,
            (summons@, summon_positions.0@) == summons_moved(
                s0,
                r0,
                cursor_position,
                ranged_active,
                melee_active,
                st,
                delta as int,
                i as int,
            ),
            forall|k: int| i <= k < s0.len() ==> #[trigger] summons@[k] == s0[k],
        decreases s0.len() - i,
    {
        let mut c = summons[i];
        let info = &summon_types.0[c.type_index];
        assert(st[c.type_index as int].wf());
        let moving = match info.summon_type {
            Some(SummonType::Ranged) => ranged_active,
            Some(SummonType::Melee) => melee_active,
            _ => false,
        };
        if moving {
            let heading = match cursor_position {
                Some(t) => Heading::Cursor(t),
                None => Heading::Keep,
            };
            let ghost before = summons@;
            move_character(&mut c, summon_positions, SUMMON_RADIUS, heading, info.speed, delta);
            summons.set(i, c);
            proof {
                assert forall|k: int| 0 <= k < summons@.len() implies movable(#[trigger] summons@[k], summon_positions.0@) by {
                    if k != i {
                        assert(summons@[k] == before[k]);
                    }
                }
                assert forall|k: int| 0 <= k < summons@.len() implies (#[trigger] summons@[k]).type_index < st.len() by {
                    if k != i {
                        assert(summons@[k] == before[k]);
                    }
                }
            }
        }
        i += 1;
    }
}

} // verus!
