use vstd::prelude::*;
use crate::hitboxes::Point;
use crate::helpers::{
    Heading, Screen, is_on_screen, move_character, moved_character, movable, on_screen,
    slots_in_world, written, DELTA_LIMIT, SLOT_LIMIT,
};
use crate::characters::table_wf;
use crate::registry::PositionRegistry;
use crate::characters::{Character, CharacterInfo, EnemyTypes};
use crate::damage::types_valid;
use crate::projectiles::Projectile;

verus! {

/// More than `rate` milliseconds have passed since `last`.
pub open spec fn reloaded(last: u64, rate: u64, now: u64) -> bool {
    now as int - last as int > rate as int
}

/// The shot that a hostile `c` of type `info` fires at `now`, if any: it
/// must be on screen, have shot before, be of a type that shoots, and have
/// waited out its firing rate.
pub open spec fn hostile_shot(c: Character, info: CharacterInfo, s: Screen, now: u64) -> Option<
    Projectile,
> {
    if on_screen(c.position, s) && c.last_shot is Some && info.firing_rate is Some
        && info.projectile_types_index is Some && reloaded(
        c.last_shot->Some_0,
        info.firing_rate->Some_0,
        now,
    ) {
        Some(
            Projectile {
                position: c.position,
                direction_vector: c.direction_vector,
                projectile_types_index: info.projectile_types_index->Some_0,
            },
        )
    } else {
        None
    }
}

/// The hostile `c` after its turn to shoot at `now`: on screen, its first
/// turn only starts its reload, and a shot restarts it.
pub open spec fn after_shooting(c: Character, info: CharacterInfo, s: Screen, now: u64) -> Character {
    if on_screen(c.position, s) && c.last_shot is None {
        Character { last_shot: Some(now), ..c }
    } else if hostile_shot(c, info, s, now) is Some {
        Character { last_shot: Some(now), ..c }
    } else {
        c
    }
}

/// The hostiles of `cs` after their turn to shoot.
pub open spec fn shot_faction(cs: Seq<Character>, types: Seq<CharacterInfo>, s: Screen, now: u64) -> Seq<Character> {
    Seq::new(cs.len(), |i: int| after_shooting(cs[i], types[cs[i].type_index as int], s, now))
}

/// The shots that the hostiles of `cs` fire at `now`, in order.
pub open spec fn hostile_volley(
    cs: Seq<Character>,
    types: Seq<CharacterInfo>,
    s: Screen,
    now: u64,
) -> Seq<Projectile>
    decreases cs.len(),
{
    if cs.len() == 0 {
        Seq::empty()
    } else {
        let rest = hostile_volley(cs.drop_last(), types, s, now);
        let c = cs.last();
        match hostile_shot(c, types[c.type_index as int], s, now) {
            Some(p) => rest.push(p),
            None => rest,
        }
    }
}

/// The projectile `p` leaves the character `c` of type `info`: from its
/// position, of its type's projectile type.
pub open spec fn fired_by(p: Projectile, c: Character, info: CharacterInfo) -> bool {
    p.position == c.position && info.projectile_types_index == Some(p.projectile_types_index)
}

/// Lets each hostile on screen shoot along its direction of movement once
/// its firing rate has passed. Returns the new projectiles, in order.
pub fn shoot(enemies: &mut Vec<Character>, screen: &Screen, enemy_types: &EnemyTypes, now: u64) -> (r:
    Vec<Projectile>)
    requires
        types_valid(old(enemies)@, enemy_types.0@),
    ensures
        final(enemies)@.len() == old(enemies)@.len(),
        forall|i: int|
            0 <= i < old(enemies)@.len() ==> #[trigger] final(enemies)@[i] == after_shooting(
                old(enemies)@[i],
                enemy_types.0@[old(enemies)@[i].type_index as int],
                *screen,
                now,
            ),
        r@ == hostile_volley(old(enemies)@, enemy_types.0@, *screen, now),
        forall|i: int|
            0 <= i < old(enemies)@.len() ==> #[trigger] final(enemies)@[i] == (Character {
                last_shot: final(enemies)@[i].last_shot,
                ..old(enemies)@[i]
            }),
        forall|j: int|
            0 <= j < r@.len() ==> exists|k: int|
                0 <= k < old(enemies)@.len() && fired_by(
                    #[trigger] r@[j],
                    old(enemies)@[k],
                    enemy_types.0@[old(enemies)@[k].type_index as int],
                ) && r@[j].direction_vector == old(enemies)@[k].direction_vector,
{
    let ghost e0 = enemies@;
    let mut shots: Vec<Projectile> = Vec::new();
    let mut i: usize = 0;
    while i < enemies.len()
        invariant
            i <= enemies@.len() == e0.len(),
            types_valid(e0, enemy_types.0@),
            forall|k: int|
                0 <= k < i ==> #[trigger] enemies@[k] == after_shooting(
                    e0[k],
                    enemy_types.0@[e0[k].type_index as int],
                    *screen,
                    now,
                ),
            forall|k: int| i <= k < e0.len() ==> #[trigger] enemies@[k] == e0[k],
            shots@ == hostile_volley(e0.subrange(0, i as int), enemy_types.0@, *screen, now),
            forall|j: int|
                0 <= j < shots@.len() ==> exists|k: int|
                    0 <= k < e0.len() && fired_by(
                        #[trigger] shots@[j],
                        e0[k],
                        enemy_types.0@[e0[k].type_index as int],
                    ) && shots@[j].direction_vector == e0[k].direction_vector,
        decreases e0.len() - i,
    {
        let mut c = enemies[i];
        let info = &enemy_types.0[c.type_index];
        proof {
            let next = e0.subrange(0, i as int + 1);
            assert(next.drop_last() =~= e0.subrange(0, i as int));
            assert(next.last() == e0[i as int]);
        }
        if is_on_screen(&c.position, screen) {
            match c.last_shot {
                Some(t) => {
                    match (info.firing_rate, info.projectile_types_index) {
                        (Some(rate), Some(index)) => {
                            if now >= t && now - t > rate {
                                c.last_shot = Some(now);
                                shots.push(
                                    Projectile {
                                        position: c.position,
                                        direction_vector: c.direction_vector,
                                        projectile_types_index: index,
                                    },
                                );
                            }
                        },
                        _ => {},
                    }
                },
                None => {
                    c.last_shot = Some(now);
                },
            }
        }
        enemies.set(i, c);
        i += 1;
    }
    proof {
        assert(e0.subrange(0, e0.len() as int) =~= e0);
    }
    shots
}

/// Radius that a hostile keeps clear of other hostiles.
pub const ENEMY_RADIUS: i64 = 32_000;

/// The hostiles and their registry after the first `n` hostiles of `cs`
/// moved in turn towards `player`; each sees the registry as the earlier
/// ones left it.
pub open spec fn enemies_moved(
    cs: Seq<Character>,
    slots: Seq<Option<Point>>,
    player: Point,
    types: Seq<CharacterInfo>,
    dt: int,
    n: int,
) -> (Seq<Character>, Seq<Option<Point>>)
    decreases n,
{
    if n <= 0 {
        (cs, slots)
    } else {
        let (cs1, sl1) = enemies_moved(cs, slots, player, types, dt, n - 1);
        let c = cs1[n - 1];
        let c2 = moved_character(
            c,
            sl1,
            ENEMY_RADIUS as int,
            Heading::Towards(player),
            types[c.type_index as int].speed as int,
            dt,
        );
        (cs1.update(n - 1, c2), written(sl1, c.position_index as int, c2.position))
    }
}

/// Moves every hostile, in order: separation from the other hostiles, then
/// a step straight towards the defended point; its slot follows it.
pub fn move_enemies(
    enemies: &mut Vec<Character>,
    player_position: &Point,
    enemy_types: &EnemyTypes,
    enemy_positions: &mut PositionRegistry,
    delta: u64,
)
    requires
        types_valid(old(enemies)@, enemy_types.0@),
        table_wf(enemy_types.0@),
        forall|i: int|
            0 <= i < old(enemies)@.len() ==> movable(
                #[trigger] old(enemies)@[i],
                old(enemy_positions).0@,
            ),
        slots_in_world(old(enemy_positions).0@),
        old(enemy_positions).0@.len() <= SLOT_LIMIT,
        player_position.in_world(),
        delta <= DELTA_LIMIT,
    ensures
        (final(enemies)@, final(enemy_positions).0@) == enemies_moved(
            old(enemies)@,
            old(enemy_positions).0@,
            *player_position,
            enemy_types.0@,
            delta as int,
            old(enemies)@.len() as int,
        ),
        final(enemies)@.len() == old(enemies)@.len(),
        final(enemy_positions).0@.len() == old(enemy_positions).0@.len(),
        types_valid(final(enemies)@, enemy_types.0@),
        forall|i: int|
            0 <= i < final(enemies)@.len() ==> movable(
                #[trigger] final(enemies)@[i],
                final(enemy_positions).0@,
            ),
        slots_in_world(final(enemy_positions).0@),
{
    let ghost e0 = enemies@;
    let ghost r0 = enemy_positions.0@;
    let ghost et = enemy_types.0@;
    let mut i: usize = 0;
    while i < enemies.len()
        invariant
            i <= enemies@.len() == e0.len(),
            et == enemy_types.0@,
            types_valid(enemies@, et),
            table_wf(et),
            forall|k: int| 0 <= k < enemies@.len() ==> movable(#[trigger] enemies@[k], enemy_positions.0@),
            slots_in_world(enemy_positions.0@),
            enemy_positions.0@.len() == r0.len() <= SLOT_LIMIT,
            player_position.in_world(),
            delta <= DELTA_LIMIT,
            (enemies@, enemy_positions.0@) == enemies_moved(e0, r0, *player_position, et, delta as int, i as int),
            forall|k: int| i <= k < e0.len() ==> #[trigger] enemies@[k] == e0[k],
        decreases e0.len() - i,
    {
        let mut c = enemies[i];
        let info = &enemy_types.0[c.type_index];
        assert(et[c.type_index as int].wf());
        let ghost before = enemies@;
        move_character(
            &mut c,
            enemy_positions,
            ENEMY_RADIUS,
            Heading::Towards(*player_position),
            info.speed,
            delta,
        );
        enemies.set(i, c);
        proof {
            assert forall|k: int| 0 <= k < enemies@.len() implies movable(#[trigger] enemies@[k], enemy_positions.0@) by {
                if k != i {
                    assert(enemies@[k] == before[k]);
                }
            }
            assert forall|k: int| 0 <= k < enemies@.len() implies (#[trigger] enemies@[k]).type_index < et.len() by {
                if k != i {
                    assert(enemies@[k] == before[k]);
                }
            }
        }
        i += 1;
    }
}

} // verus!
