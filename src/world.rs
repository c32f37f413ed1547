use vstd::prelude::*;
use crate::hitboxes::Point;
use crate::helpers::normalized;
use crate::collectibles::{touched_count, untouched};
use crate::damage::{alive, damaged_faction, drops, freed, health_after, surviving};
use crate::difficulty::{next_enemies, next_spawn_chances};
use crate::enemies::{enemies_moved, hostile_volley, shot_faction};
use crate::player::{
    key_vector, missing_player, next_speed, player_hitbox, player_step, player_vulnerable,
    touched_by_enemy,
};
use crate::projectiles::flown_on_screen;
use crate::spawner::allies_bought;
use crate::summons::{ally_volley, readied, summons_moved};
use crate::helpers::{movable, slots_in_world, Screen, DELTA_LIMIT, SLOT_LIMIT};
use crate::characters::{
    Character, CharacterInfo, EnemyTypes, SummonTypes, table_wf, COLLECTIBLE_TYPES,
};
use crate::collectibles::{detect_collisions, Collectible};
use crate::damage::{deal_damage, despawn_characters, types_valid};
use crate::difficulty::{init_game, update_difficulty, Difficulty, ENEMIES_LIMIT};
use crate::enemies::{move_enemies, shoot, fired_by};
use crate::game::{
    GameState, WaveState, WAVE_COUNTDOWN_SECONDS, dead_summons_end_game, next_wave,
    update_countdown,
};
use crate::player::{
    Player, check_for_game_over, collisions, heal_player, move_player, player_hitbox_value,
    spawn_player, PLAYER_MAX_HEALTH,
};
use crate::projectiles::{move_projectiles, projectile_table_wf, Projectile, ProjectileTypes};
use crate::registry::PositionRegistry;
use crate::spawner::{
    spawn_enemies, spawn_summons, slot_held, spawned_hostile, wave_spawned, ANIMATION_START_OFFSET,
};
use crate::summons::{move_summons, shoot_ranged_attacks};

verus! {

/// What the player does during one tick.
#[derive(Clone, Copy, Debug)]
pub struct Input {
    pub up: bool,
    pub left: bool,
    pub down: bool,
    pub right: bool,
    /// The cursor in world coordinates; None when it is outside the window.
    pub cursor: Option<Point>,
    /// Ranged allies follow the cursor.
    pub ranged_active: bool,
    /// Melee allies follow the cursor.
    pub melee_active: bool,
}

/// The whole simulation: the defended point, both factions with their
/// registries, projectiles in flight, pickups on the ground, the difficulty,
/// the type tables and the phases of the wave and the game.
pub struct World {
    pub player: Player,
    pub enemies: Vec<Character>,
    pub summons: Vec<Character>,
    pub enemy_positions: PositionRegistry,
    pub summon_positions: PositionRegistry,
    pub projectiles: Vec<Projectile>,
    pub collectibles: Vec<Collectible>,
    pub difficulty: Difficulty,
    pub enemy_types: EnemyTypes,
    pub summon_types: SummonTypes,
    pub projectile_types: ProjectileTypes,
    pub screen: Screen,
    pub wave_state: WaveState,
    pub game_state: GameState,
    /// Seconds left of the countdown before the fight.
    pub countdown: u8,
}

/// Every projectile type that a table names is a row of the projectile table.
pub open spec fn shots_valid(t: Seq<CharacterInfo>, n: int) -> bool {
    forall|i: int|
        0 <= i < t.len() ==> ((#[trigger] t[i]).projectile_types_index matches Some(p) ==> p < n)
}

/// Hostiles a wave of target `enemies` thousandths spawns: its whole
/// hostiles, at most the registry's capacity.
pub open spec fn spawn_count(enemies: u64) -> int {
    if enemies / 1000 > SLOT_LIMIT { SLOT_LIMIT as int } else { (enemies / 1000) as int }
}

/// Every character of `cs` can be moved with the registry `slots`.
pub open spec fn all_movable(cs: Seq<Character>, slots: Seq<Option<Point>>) -> bool {
    forall|i: int| 0 <= i < cs.len() ==> movable(#[trigger] cs[i], slots)
}

/// The cursor, when it lies in the world.
pub open spec fn cursor_in_world(c: Option<Point>) -> Option<Point> {
    match c {
        Some(p) => if p.in_world() {
            Some(p)
        } else {
            None
        },
        None => None,
    }
}

/// Each currency count can take every pickup on the ground without overflow.
pub open spec fn pickups_fit(h: Seq<i32>, n: int) -> bool {
    forall|t: int| 0 <= t < h.len() ==> #[trigger] h[t] + n <= i32::MAX
}

/// Buying cannot overflow the ally registry's capacity.
pub open spec fn can_buy(n_c: int, n_t: int, slots: int, allies: int) -> bool {
    n_c <= 16 && n_t <= 16 && slots <= SLOT_LIMIT - n_c * n_t && allies <= SLOT_LIMIT - n_c * n_t
}

/// The defended point of `b` is that of `a` but for its health and the
/// start of its invulnerability.
pub open spec fn player_kept(a: Player, b: Player) -> bool {
    &&& b.position == a.position
    &&& b.direction_vector == a.direction_vector
    &&& b.speed == a.speed
    &&& b.movement_keys_pressed == a.movement_keys_pressed
}

/// `b` is `a` after the movement phase of a tick.
pub open spec fn moved_world(a: World, b: World, input: Input, delta: u64) -> bool {
    let dir = normalized(key_vector(input.up, input.left, input.down, input.right));
    &&& b.same_frame(&a)
    &&& b.player.speed == next_speed(a.player.speed as int, dir != (Point { x: 0, y: 0 }), delta as int)
    &&& (b.player.position, b.player.direction_vector) == player_step(a.player, dir, a.screen, delta as int)
    &&& b.player.movement_keys_pressed == (input.up || input.left || input.down || input.right)
    &&& b.player.health == a.player.health
    &&& b.player.collectibles@ == a.player.collectibles@
    &&& b.player.invulnerable_since == a.player.invulnerable_since
    &&& if a.wave_state == WaveState::Fight {
        (b.enemies@, b.enemy_positions.0@) == enemies_moved(
            a.enemies@,
            a.enemy_positions.0@,
            b.player.position,
            a.enemy_types.0@,
            delta as int,
            a.enemies@.len() as int,
        )
    } else {
        b.enemies@ == a.enemies@ && b.enemy_positions.0@ == a.enemy_positions.0@
    }
    &&& (b.summons@, b.summon_positions.0@) == summons_moved(
        a.summons@,
        a.summon_positions.0@,
        cursor_in_world(input.cursor),
        input.ranged_active,
        input.melee_active,
        a.summon_types.0@,
        delta as int,
        a.summons@.len() as int,
    )
    &&& b.projectiles@ == flown_on_screen(a.projectiles@, a.projectile_types.0@, a.screen, delta as int)
    &&& b.collectibles@ == a.collectibles@
}

/// The projectiles in flight after the shots of a fight are added.
pub open spec fn armed(a: World, now: u64) -> Seq<Projectile> {
    if a.wave_state == WaveState::Fight {
        a.projectiles@ + hostile_volley(a.enemies@, a.enemy_types.0@, a.screen, now) + ally_volley(
            a.summons@,
            a.summon_types.0@,
            a.enemy_positions.0@,
            now,
        )
    } else {
        a.projectiles@
    }
}

/// `b` is `a` after the combat phase of a tick.
pub open spec fn fought_world(a: World, b: World, now: u64) -> bool {
    let fight = a.wave_state == WaveState::Fight;
    let et = a.enemy_types.0@;
    let st = a.summon_types.0@;
    let pt = a.projectile_types.0@;
    let e1 = if fight { shot_faction(a.enemies@, et, a.screen, now) } else { a.enemies@ };
    let s1 = if fight { readied(a.summons@, st, now) } else { a.summons@ };
    let ps1 = armed(a, now);
    let ps2 = missing_player(ps1, a.player.position, pt);
    let hit = touched_by_enemy(a.player.position, e1, et) || ps2.len() < ps1.len();
    let e2 = damaged_faction(e1, et, ps2, pt, false, s1, st, now);
    let s2 = damaged_faction(s1, st, ps2, pt, true, e1, et, now);
    &&& b.same_frame(&a)
    &&& player_kept(a.player, b.player)
    &&& b.player.collectibles@ == a.player.collectibles@
    &&& if hit && player_vulnerable(a.player.invulnerable_since, now) {
        b.player.health == health_after(a.player.health as int, 1) && b.player.invulnerable_since == now
    } else {
        b.player.health == a.player.health && b.player.invulnerable_since == a.player.invulnerable_since
    }
    &&& if fight {
        &&& b.projectiles@ == surviving(ps2, pt, e1, et, s1, st)
        &&& b.enemies@ == alive(e2)
        &&& b.summons@ == alive(s2)
        &&& b.enemy_positions.0@ == freed(a.enemy_positions.0@, e2)
        &&& b.summon_positions.0@ == freed(a.summon_positions.0@, s2)
        &&& b.collectibles@ == a.collectibles@ + drops(e2, et, a.enemy_positions.0@)
    } else {
        &&& b.projectiles@ == ps2
        &&& b.enemies@ == a.enemies@
        &&& b.summons@ == a.summons@
        &&& b.enemy_positions.0@ == a.enemy_positions.0@
        &&& b.summon_positions.0@ == a.summon_positions.0@
        &&& b.collectibles@ == a.collectibles@
    }
}

/// The holdings after collecting the pickups that the defended point of
/// `a` touches, when every count can take them; else as they were.
pub open spec fn collected(a: World) -> Seq<i32> {
    let h = a.player.collectibles@;
    if pickups_fit(h, a.collectibles@.len() as int) {
        Seq::new(
            h.len(),
            |t: int|
                (h[t] + touched_count(a.collectibles@, t, player_hitbox(), a.player.position)) as i32,
        )
    } else {
        h
    }
}

/// `b` is `a` after the economy phase of a tick.
pub open spec fn traded_world(a: World, b: World, now: u64) -> bool {
    let h = a.player.collectibles@;
    let h1 = collected(a);
    &&& b.same_frame(&a)
    &&& player_kept(a.player, b.player)
    &&& b.player.health == a.player.health
    &&& b.player.invulnerable_since == a.player.invulnerable_since
    &&& b.enemies@ == a.enemies@
    &&& b.enemy_positions.0@ == a.enemy_positions.0@
    &&& b.projectiles@ == a.projectiles@
    &&& b.collectibles@ == if pickups_fit(h, a.collectibles@.len() as int) {
        untouched(a.collectibles@, player_hitbox(), a.player.position)
    } else {
        a.collectibles@
    }
    &&& if can_buy(
        h.len() as int,
        a.summon_types.0@.len() as int,
        a.summon_positions.0@.len() as int,
        a.summons@.len() as int,
    ) {
        allies_bought(
            h1,
            b.player.collectibles@,
            a.summons@,
            b.summons@,
            a.summon_positions.0@,
            b.summon_positions.0@,
            a.summon_types.0@,
            a.screen,
            now,
        )
    } else {
        b.player.collectibles@ == h1 && b.summons@ == a.summons@ && b.summon_positions.0@
            == a.summon_positions.0@
    }
}

/// `b` is `a` after the end-of-fight checks of a tick.
pub open spec fn settled_world(a: World, b: World) -> bool {
    let fight = a.wave_state == WaveState::Fight;
    let cleared = fight && a.enemies@.len() == 0;
    let grows = a.difficulty.wave < u32::MAX && a.difficulty.enemies <= ENEMIES_LIMIT;
    &&& b.enemy_types == a.enemy_types
    &&& b.summon_types == a.summon_types
    &&& b.projectile_types == a.projectile_types
    &&& b.screen == a.screen
    &&& player_kept(a.player, b.player)
    &&& b.player.collectibles@ == a.player.collectibles@
    &&& b.player.invulnerable_since == a.player.invulnerable_since
    &&& b.enemies@ == a.enemies@
    &&& b.summons@ == a.summons@
    &&& b.enemy_positions.0@ == a.enemy_positions.0@
    &&& b.summon_positions.0@ == a.summon_positions.0@
    &&& b.projectiles@ == a.projectiles@
    &&& b.collectibles@ == a.collectibles@
    &&& if cleared && grows {
        &&& b.difficulty.wave == a.difficulty.wave + 1
        &&& b.difficulty.enemy_spawn_chance@ == next_spawn_chances(a.difficulty.enemy_spawn_chance@)
        &&& b.difficulty.enemies == next_enemies(a.difficulty.enemies as int)
    } else {
        &&& b.difficulty.wave == a.difficulty.wave
        &&& b.difficulty.enemy_spawn_chance@ == a.difficulty.enemy_spawn_chance@
        &&& b.difficulty.enemies == a.difficulty.enemies
    }
    &&& b.wave_state == if cleared { WaveState::Start } else { a.wave_state }
    &&& b.countdown == if cleared { WAVE_COUNTDOWN_SECONDS } else { a.countdown }
    &&& b.player.health == if cleared { PLAYER_MAX_HEALTH } else { a.player.health }
    &&& b.game_state == if (fight && a.summons@.len() == 0) || b.player.health == 0 {
        GameState::GameOver
    } else {
        a.game_state
    }
}

/// The stages of one running tick, from `a` through `b`, `c` and `d` to `e`.
pub open spec fn ticked(
    a: World,
    b: World,
    c: World,
    d: World,
    e: World,
    input: Input,
    now: u64,
    delta: u64,
) -> bool {
    moved_world(a, b, input, delta) && fought_world(b, c, now) && traded_world(c, d, now)
        && settled_world(d, e)
}

/// Nothing that a tick changes differs between `a` and `b`.
pub open spec fn unchanged(a: World, b: World) -> bool {
    &&& b.same_frame(&a)
    &&& player_kept(a.player, b.player)
    &&& b.player.health == a.player.health
    &&& b.player.collectibles@ == a.player.collectibles@
    &&& b.player.invulnerable_since == a.player.invulnerable_since
    &&& b.enemies@ == a.enemies@
    &&& b.summons@ == a.summons@
    &&& b.enemy_positions.0@ == a.enemy_positions.0@
    &&& b.summon_positions.0@ == a.summon_positions.0@
    &&& b.projectiles@ == a.projectiles@
    &&& b.collectibles@ == a.collectibles@
}

impl World {
    /// The tables are well formed and agree with each other.
    pub open spec fn tables_wf(&self) -> bool {
        &&& table_wf(self.enemy_types.0@)
        &&& table_wf(self.summon_types.0@)
        &&& projectile_table_wf(self.projectile_types.0@)
        &&& shots_valid(self.enemy_types.0@, self.projectile_types.0@.len() as int)
        &&& shots_valid(self.summon_types.0@, self.projectile_types.0@.len() as int)
        &&& self.difficulty.wf()
        &&& self.difficulty.enemy_spawn_chance@.len() <= self.enemy_types.0@.len()
        &&& self.screen.wf()
    }

    /// Every character, projectile and pickup is consistent with the tables
    /// and registries.
    pub open spec fn entities_wf(&self) -> bool {
        &&& types_valid(self.enemies@, self.enemy_types.0@)
        &&& types_valid(self.summons@, self.summon_types.0@)
        &&& all_movable(self.enemies@, self.enemy_positions.0@)
        &&& all_movable(self.summons@, self.summon_positions.0@)
        &&& slots_in_world(self.enemy_positions.0@)
        &&& slots_in_world(self.summon_positions.0@)
        &&& self.enemy_positions.0@.len() <= SLOT_LIMIT
        &&& self.summon_positions.0@.len() <= SLOT_LIMIT
        &&& forall|i: int|
            0 <= i < self.projectiles@.len() ==> (#[trigger] self.projectiles@[i]).wf(
                self.projectile_types.0@,
            )
        &&& forall|i: int|
            0 <= i < self.collectibles@.len() ==> (#[trigger] self.collectibles@[i]).collectible_type
                < COLLECTIBLE_TYPES
    }

    /// The defended point is in the world with its holdings.
    pub open spec fn player_wf(&self) -> bool {
        &&& self.player.wf()
        &&& self.player.collectibles@.len() == COLLECTIBLE_TYPES
        &&& forall|t: int|
            0 <= t < self.player.collectibles@.len() ==> #[trigger] self.player.collectibles@[t]
                >= 0
    }

    pub open spec fn wf(&self) -> bool {
        &&& self.tables_wf()
        &&& self.entities_wf()
        &&& self.player_wf()
        &&& (self.wave_state == WaveState::Start ==> self.enemies@.len() == 0)
    }

    /// A new game on `screen` at time `now`: the standard tables, the
    /// defended point in the middle, no characters yet, and the countdown of
    /// the first wave running.
    pub fn new(screen: Screen, now: u64) -> (r: World)
        requires
            screen.wf(),
        ensures
            r.wf(),
            r.wave_state == WaveState::Start,
            r.game_state == GameState::Running,
            r.countdown == WAVE_COUNTDOWN_SECONDS,
            r.difficulty.wave == 0,
            r.enemies@.len() == 0 && r.summons@.len() == 0,
    {
        let enemy_types = EnemyTypes::standard();
        let summon_types = SummonTypes::standard();
        let projectile_types = ProjectileTypes::standard();
        let w = World {
            player: spawn_player(&screen, now),
            enemies: Vec::new(),
            summons: Vec::new(),
            enemy_positions: PositionRegistry::new(),
            summon_positions: PositionRegistry::new(),
            projectiles: Vec::new(),
            collectibles: Vec::new(),
            difficulty: init_game(),
            enemy_types,
            summon_types,
            projectile_types,
            screen,
            wave_state: WaveState::Start,
            game_state: GameState::Running,
            countdown: WAVE_COUNTDOWN_SECONDS,
        };
        assert(w.player.collectibles@[0] == 12);
        w
    }

    /// The tables, difficulty and game phase are as in `old`; the wave phase
    /// and countdown may differ.
    pub open spec fn same_frame_but_wave(&self, old: &World) -> bool {
        &&& self.difficulty == old.difficulty
        &&& self.enemy_types == old.enemy_types
        &&& self.summon_types == old.summon_types
        &&& self.projectile_types == old.projectile_types
        &&& self.screen == old.screen
        &&& self.game_state == old.game_state
    }

    /// Everything but the moving entities is as in `old`.
    pub open spec fn same_frame(&self, old: &World) -> bool {
        &&& self.difficulty == old.difficulty
        &&& self.enemy_types == old.enemy_types
        &&& self.summon_types == old.summon_types
        &&& self.projectile_types == old.projectile_types
        &&& self.screen == old.screen
        &&& self.wave_state == old.wave_state
        &&& self.game_state == old.game_state
        &&& self.countdown == old.countdown
    }

    /// Movement: the defended point by the keys, hostiles towards it during
    /// a fight, active allies towards the cursor, and projectiles along
    /// their flight, those leaving the screen removed.
    fn movement_phase(&mut self, input: &Input, delta: u64)
        requires
            old(self).wf(),
            delta <= DELTA_LIMIT,
        ensures
            final(self).wf(),
            moved_world(*old(self), *final(self), *input, delta),
    {
        move_player(
            &mut self.player,
            input.up,
            input.left,
            input.down,
            input.right,
            &self.screen,
            delta,
        );
        if self.wave_state == WaveState::Fight {
            let target = self.player.position;
            move_enemies(
                &mut self.enemies,
                &target,
                &self.enemy_types,
                &mut self.enemy_positions,
                delta,
            );
        }
        let cursor = match input.cursor {
            Some(c) => if c.is_in_world() {
                Some(c)
            } else {
                None
            },
            None => None,
        };
        move_summons(
            &mut self.summons,
            cursor,
            input.ranged_active,
            input.melee_active,
            &self.summon_types,
            &mut self.summon_positions,
            delta,
        );
        let moved = move_projectiles(&self.projectiles, &self.projectile_types, &self.screen, delta);
        self.projectiles = moved;
    }

    /// Combat: during a fight hostiles and ranged allies shoot; the defended
    /// point takes its hits; during a fight projectiles and contacts deal
    /// damage, and the dead are removed, hostiles leaving their pickups.
    fn combat_phase(&mut self, now: u64)
        requires
            old(self).wf(),
        ensures
            final(self).wf(),
            fought_world(*old(self), *final(self), now),
    {
        if self.wave_state == WaveState::Fight {
            let mut shots = shoot(&mut self.enemies, &self.screen, &self.enemy_types, now);
            let mut ally_shots = shoot_ranged_attacks(
                &mut self.summons,
                &self.enemy_positions,
                &self.summon_types,
                now,
            );
            proof {
                let pt = self.projectile_types.0@;
                let et = self.enemy_types.0@;
                let st = self.summon_types.0@;
                assert forall|j: int| 0 <= j < shots@.len() implies (#[trigger] shots@[j]).wf(pt) by {
                    let k = choose|k: int|
                        0 <= k < old(self).enemies@.len() && fired_by(
                            shots@[j],
                            old(self).enemies@[k],
                            et[old(self).enemies@[k].type_index as int],
                        ) && shots@[j].direction_vector == old(self).enemies@[k].direction_vector;
                    assert(movable(old(self).enemies@[k], old(self).enemy_positions.0@));
                    assert(old(self).enemies@[k].type_index < et.len());
                }
                assert forall|j: int| 0 <= j < ally_shots@.len() implies (#[trigger] ally_shots@[j]).wf(pt) by {
                    let k = choose|k: int|
                        0 <= k < old(self).summons@.len() && fired_by(
                            ally_shots@[j],
                            old(self).summons@[k],
                            st[old(self).summons@[k].type_index as int],
                        );
                    assert(movable(old(self).summons@[k], old(self).summon_positions.0@));
                    assert(old(self).summons@[k].type_index < st.len());
                }
                assert forall|i: int| 0 <= i < self.enemies@.len() implies movable(
                    #[trigger] self.enemies@[i],
                    self.enemy_positions.0@,
                ) by {
                    assert(movable(old(self).enemies@[i], old(self).enemy_positions.0@));
                }
                assert forall|i: int| 0 <= i < self.enemies@.len() implies (
                #[trigger] self.enemies@[i]).type_index < et.len() by {
                    assert(old(self).enemies@[i].type_index < et.len());
                }
            }
            self.projectiles.append(&mut shots);
            self.projectiles.append(&mut ally_shots);
            proof {
                assert(self.enemies@ =~= shot_faction(
                    old(self).enemies@,
                    old(self).enemy_types.0@,
                    old(self).screen,
                    now,
                ));
                assert(self.summons@ =~= readied(old(self).summons@, old(self).summon_types.0@, now));
            }
        }
        let ghost e1 = self.enemies@;
        let ghost s1 = self.summons@;
        let ghost ps1 = self.projectiles@;
        assert(ps1 == armed(*old(self), now));
        let left = collisions(
            &mut self.player,
            &self.enemies,
            &self.enemy_types,
            &self.projectiles,
            &self.projectile_types,
            now,
        );
        self.projectiles = left;
        let ghost ps2 = self.projectiles@;
        if self.wave_state == WaveState::Fight {
            let left = deal_damage(
                &mut self.enemies,
                &mut self.summons,
                &self.projectiles,
                &self.projectile_types,
                &self.summon_types,
                &self.enemy_types,
                now,
            );
            self.projectiles = left;
            proof {
                assert(self.enemies@ =~= damaged_faction(
                    e1,
                    self.enemy_types.0@,
                    ps2,
                    self.projectile_types.0@,
                    false,
                    s1,
                    self.summon_types.0@,
                    now,
                ));
                assert(self.summons@ =~= damaged_faction(
                    s1,
                    self.summon_types.0@,
                    ps2,
                    self.projectile_types.0@,
                    true,
                    e1,
                    self.enemy_types.0@,
                    now,
                ));
            }
            let mut drops = despawn_characters(
                &mut self.enemies,
                &mut self.summons,
                &mut self.summon_positions,
                &mut self.enemy_positions,
                &self.summon_types,
                &self.enemy_types,
            );
            self.collectibles.append(&mut drops);
        }
    }

    /// The economy: pickups that the defended point touches are collected,
    /// then allies are bought with the holdings. A step that would overflow
    /// a count or the ally registry's capacity is left out.
    fn economy_phase(&mut self, now: u64)
        requires
            old(self).wf(),
            now <= u64::MAX - ANIMATION_START_OFFSET,
        ensures
            final(self).wf(),
            traded_world(*old(self), *final(self), now),
    {
        let n_c = self.player.collectibles.len();
        let mut fits = true;
        let mut t: usize = 0;
        while t < n_c
            invariant
                t <= n_c == self.player.collectibles@.len(),
                fits == forall|k: int|
                    0 <= k < t ==> self.player.collectibles@[k] + self.collectibles@.len()
                        <= i32::MAX,
            decreases n_c - t,
        {
            if self.player.collectibles[t] as i128 + self.collectibles.len() as i128
                > i32::MAX as i128 {
                fits = false;
            }
            t += 1;
        }
        if fits {
            let hitbox = player_hitbox_value();
            let position = self.player.position;
            let left = detect_collisions(
                &hitbox,
                &position,
                &self.collectibles,
                &mut self.player.collectibles,
            );
            proof {
                assert forall|i: int| 0 <= i < left@.len() implies (
                #[trigger] left@[i]).collectible_type < COLLECTIBLE_TYPES by {
                    let k = choose|k: int| 0 <= k < self.collectibles@.len() && self.collectibles@[k] == left@[i];
                }
                assert forall|k: int| 0 <= k < self.player.collectibles@.len() implies #[trigger] self.player.collectibles@[k] >= 0 by {
                    crate::collectibles::lemma_touched_count_bounded(self.collectibles@, k, hitbox, position);
                }
            }
            self.collectibles = left;
        }
        proof {
            let a = *old(self);
            if pickups_fit(a.player.collectibles@, a.collectibles@.len() as int) {
                assert(fits);
                assert forall|t: int| 0 <= t < self.player.collectibles@.len() implies #[trigger] self.player.collectibles@[t]
                    == collected(a)[t] by {
                    crate::collectibles::lemma_touched_count_bounded(a.collectibles@, t, player_hitbox(), a.player.position);
                }
            }
            assert(self.player.collectibles@ =~= collected(a));
        }
        let n_t = self.summon_types.0.len();
        if n_c <= 16 && n_t <= 16 && self.summon_positions.0.len() <= SLOT_LIMIT - n_c * n_t
            && self.summons.len() <= SLOT_LIMIT - n_c * n_t {
            let ghost s0 = self.summons@;
            let ghost r0 = self.summon_positions.0@;
            spawn_summons(
                &mut self.player.collectibles,
                &self.summon_types,
                &self.screen,
                &mut self.summon_positions,
                &mut self.summons,
                now,
            );
            proof {
                let st = self.summon_types.0@;
                let cs = self.summons@;
                let slots = self.summon_positions.0@;
                assert forall|i: int| 0 <= i < cs.len() implies movable(#[trigger] cs[i], slots)
                    && cs[i].type_index < st.len() by {
                    if i < s0.len() {
                        assert(cs.subrange(0, s0.len() as int)[i] == cs[i]);
                        assert(movable(s0[i], r0));
                        assert(s0[i].type_index < st.len());
                    }
                }
                assert forall|k: int| 0 <= k < slots.len() implies (#[trigger] slots[k] matches Some(
                    p,
                ) ==> p.in_world()) by {
                    if k < r0.len() {
                        assert(slots.subrange(0, r0.len() as int)[k] == slots[k]);
                    } else {
                        assert(slot_held(slots, cs, s0.len() as int, k));
                        let i = choose|i: int|
                            s0.len() <= i < cs.len() && slots[k] == Some(cs[i].position)
                                && #[trigger] cs[i].position_index == k;
                        assert(crate::spawner::spawned_ally(
                            cs[i],
                            i,
                            st,
                            slots,
                            r0.len() as int,
                            s0.len() as int,
                            self.screen,
                            now,
                        ));
                    }
                }
            }
        }
    }

    /// The end of a fight: with no hostile left the difficulty moves to the
    /// next wave, whose countdown starts with the defended point healed; with
    /// no ally left, or the defended point out of health, the game is over.
    fn wave_phase(&mut self)
        requires
            old(self).wf(),
        ensures
            final(self).wf(),
            settled_world(*old(self), *final(self)),
    {
        if self.wave_state == WaveState::Fight {
            match next_wave(&self.enemies) {
                Some(state) => {
                    if self.difficulty.wave < u32::MAX && self.difficulty.enemies
                        <= ENEMIES_LIMIT {
                        update_difficulty(&mut self.difficulty);
                    }
                    self.wave_state = state;
                    self.countdown = WAVE_COUNTDOWN_SECONDS;
                    heal_player(&mut self.player);
                },
                None => {},
            }
            match dead_summons_end_game(&self.summons) {
                Some(state) => {
                    self.game_state = state;
                },
                None => {},
            }
        }
        if check_for_game_over(&self.player) {
            self.game_state = GameState::GameOver;
        }
    }

    /// Spawns the hostiles of the wave into a fresh registry and starts the
    /// fight. The registry holds at most `SLOT_LIMIT` hostiles, so a wave
    /// whose target is larger spawns that many (`spawn_count`). Returns how
    /// many hostiles fell back to the fixed edge position.
    fn start_fight(&mut self, now: u64) -> (fallbacks: usize)
        requires
            old(self).wf(),
            old(self).wave_state == WaveState::Start,
            now <= u64::MAX - ANIMATION_START_OFFSET,
        ensures
            final(self).wf(),
            final(self).wave_state == WaveState::Fight,
            wave_spawned(
                Seq::empty(),
                Seq::empty(),
                final(self).enemies@,
                final(self).enemy_positions.0@,
                old(self).difficulty.enemy_spawn_chance@,
                old(self).enemy_types.0@,
                old(self).screen,
                old(self).difficulty.wave as int,
                now,
                spawn_count(old(self).difficulty.enemies),
            ),
            final(self).same_frame_but_wave(old(self)),
            final(self).player == old(self).player,
            final(self).summons@ == old(self).summons@,
            final(self).summon_positions.0@ == old(self).summon_positions.0@,
            final(self).projectiles@ == old(self).projectiles@,
            final(self).collectibles@ == old(self).collectibles@,
            fallbacks <= final(self).enemies@.len(),
            fallbacks == 0 ==> forall|i: int|
                0 <= i < final(self).enemies@.len() ==> crate::spawner::in_spawn_square(
                    #[trigger] final(self).enemies@[i].position,
                    old(self).screen,
                    old(self).difficulty.wave as int,
                ),
    {
        self.enemy_positions = PositionRegistry::new();
        assert(self.enemies@ =~= Seq::<Character>::empty());
        let saved = self.difficulty.enemies;
        if self.difficulty.enemies / 1000 > SLOT_LIMIT as u64 {
            self.difficulty.enemies = SLOT_LIMIT as u64 * 1000;
        }
        assert(self.enemy_positions.0@ =~= Seq::<Option<Point>>::empty());
        assert((self.difficulty.enemies / 1000) as int == spawn_count(saved));
        let fallbacks = spawn_enemies(
            &self.difficulty,
            &self.enemy_types,
            &self.screen,
            &mut self.enemy_positions,
            &mut self.enemies,
            now,
        );
        self.difficulty.enemies = saved;
        self.wave_state = WaveState::Fight;
        proof {
            let et = self.enemy_types.0@;
            let w = self.difficulty.enemy_spawn_chance@;
            let cs = self.enemies@;
            let slots = self.enemy_positions.0@;
            let wave = self.difficulty.wave as int;
            assert forall|i: int| 0 <= i < cs.len() implies movable(#[trigger] cs[i], slots)
                && cs[i].type_index < et.len() by {
                assert(spawned_hostile(cs[i], i, et, w, slots, 0, 0, self.screen, wave, now));
            }
            assert forall|k: int| 0 <= k < slots.len() implies (#[trigger] slots[k] matches Some(p)
                ==> p.in_world()) by {
                assert(slot_held(slots, cs, 0, k));
                let i = choose|i: int|
                    0 <= i < cs.len() && slots[k] == Some(cs[i].position) && #[trigger] cs[i].position_index
                        == k;
                assert(spawned_hostile(cs[i], i, et, w, slots, 0, 0, self.screen, wave, now));
            }
        }
        fallbacks
    }

    /// One second of the countdown between waves; at its end the fight
    /// starts. Returns how many hostiles had to spawn at the fallback
    /// position because every drawn candidate fell inside the padded screen.
    pub fn countdown_second(&mut self, now: u64) -> (fallbacks: usize)
        requires
            old(self).wf(),
            now <= u64::MAX - ANIMATION_START_OFFSET,
        ensures
            final(self).wf(),
            final(self).game_state == old(self).game_state,
            old(self).game_state == GameState::Running && old(self).wave_state == WaveState::Start
                && old(self).countdown > 0 ==> final(self).countdown == old(self).countdown - 1
                && final(self).wave_state == WaveState::Start,
            old(self).game_state == GameState::Running && old(self).wave_state == WaveState::Start
                && old(self).countdown == 0 ==> final(self).wave_state == WaveState::Fight
                && wave_spawned(
                Seq::empty(),
                Seq::empty(),
                final(self).enemies@,
                final(self).enemy_positions.0@,
                old(self).difficulty.enemy_spawn_chance@,
                old(self).enemy_types.0@,
                old(self).screen,
                old(self).difficulty.wave as int,
                now,
                spawn_count(old(self).difficulty.enemies),
            ),
            final(self).same_frame_but_wave(old(self)),
            final(self).summons@ == old(self).summons@,
            final(self).projectiles@ == old(self).projectiles@,
            final(self).collectibles@ == old(self).collectibles@,
            final(self).player.health == old(self).player.health,
            final(self).player.position == old(self).player.position,
            final(self).player.collectibles@ == old(self).player.collectibles@,
            old(self).game_state != GameState::Running || old(self).wave_state == WaveState::Fight
                ==> final(self).wave_state == old(self).wave_state && final(self).countdown
                == old(self).countdown,
            !(old(self).game_state == GameState::Running && old(self).wave_state == WaveState::Start
                && old(self).countdown == 0) ==> fallbacks == 0,
            fallbacks <= final(self).enemies@.len(),
            fallbacks == 0 ==> old(self).game_state == GameState::Running && old(self).wave_state
                == WaveState::Start && old(self).countdown == 0 ==> forall|i: int|
                0 <= i < final(self).enemies@.len() ==> crate::spawner::in_spawn_square(
                    #[trigger] final(self).enemies@[i].position,
                    old(self).screen,
                    old(self).difficulty.wave as int,
                ),
    {
        if self.game_state == GameState::Running && self.wave_state == WaveState::Start {
            match update_countdown(self.countdown) {
                Some(c) => {
                    self.countdown = c;
                    0
                },
                None => self.start_fight(now),
            }
        } else {
            0
        }
    }

    /// Pauses or resumes a running game; a finished game stays over.
    pub fn set_paused(&mut self, paused: bool)
        requires
            old(self).wf(),
        ensures
            final(self).wf(),
            old(self).game_state == GameState::GameOver ==> final(self).game_state
                == GameState::GameOver,
            old(self).game_state != GameState::GameOver ==> final(self).game_state == (if paused {
                GameState::Paused
            } else {
                GameState::Running
            }),
    {
        if self.game_state != GameState::GameOver {
            self.game_state = if paused {
                GameState::Paused
            } else {
                GameState::Running
            };
        }
    }

    /// One frame of `delta` milliseconds ending at `now`, while the game
    /// runs: movement, then combat, then the economy, then the end of the
    /// fight, each stage exactly as its relation states. A paused or
    /// finished game does not change.
    pub fn tick(&mut self, input: &Input, now: u64, delta: u64)
        requires
            old(self).wf(),
            delta <= DELTA_LIMIT,
            now <= u64::MAX - ANIMATION_START_OFFSET,
        ensures
            final(self).wf(),
            old(self).game_state != GameState::Running ==> unchanged(*old(self), *final(self))
                && final(self).wave_state == old(self).wave_state && final(self).countdown
                == old(self).countdown,
            old(self).game_state == GameState::Running ==> exists|b: World, c: World, d: World|
                #[trigger] ticked(*old(self), b, c, d, *final(self), *input, now, delta),
    {
        if self.game_state == GameState::Running {
            self.movement_phase(input, delta);
            let ghost b = *self;
            self.combat_phase(now);
            let ghost c = *self;
            self.economy_phase(now);
            let ghost d = *self;
            self.wave_phase();
            assert(ticked(*old(self), b, c, d, *self, *input, now, delta));
        }
    }
}

} // verus!
