use vstd::prelude::*;
use crate::hitboxes::{Hitbox, Point, are_hitboxes_colliding, colliding};
use crate::helpers::{
    Screen, advance, advanced, clamp_to_world, clamp_world, is_direction, is_on_screen, normalize,
    normalized, on_screen, DELTA_LIMIT,
};
use crate::characters::{Character, CharacterInfo, EnemyTypes};
use crate::damage::{health_after, types_valid, projectile_types_valid};
use crate::projectiles::{Projectile, ProjectileInfo, ProjectileTypes};

verus! {

/// Top speed of the defended point, in world units per second.
pub const PLAYER_SPEED: i64 = 400;

/// Health of the defended point at the start of each wave.
pub const PLAYER_MAX_HEALTH: i32 = 3;

/// Gain and loss of speed, in world units per second squared.
pub const PLAYER_ACCELERATION: i64 = 8000;

/// Milliseconds after a hit during which the defended point takes no other.
pub const PLAYER_INVULNERABILITY: u64 = 1000;

/// Currency holdings at the start of a game.
pub const STARTING_BONES: i32 = 12;

/// The defended point.
pub struct Player {
    pub health: i32,
    /// Current speed, in world units per second.
    pub speed: i64,
    /// Latest direction of movement, of length one thousand or zero.
    pub direction_vector: Point,
    /// Whether any movement key was held on the last tick.
    pub movement_keys_pressed: bool,
    /// Currency holdings, one count per currency type.
    pub collectibles: Vec<i32>,
    pub position: Point,
    /// Milliseconds timestamp at which the invulnerability after a hit began.
    pub invulnerable_since: u64,
}

/// Hitbox of the defended point.
pub open spec fn player_hitbox() -> Hitbox {
    Hitbox { width: 58_000, height: 100_000 }
}

/// The hitbox of the defended point.
pub fn player_hitbox_value() -> (r: Hitbox)
    ensures
        r == player_hitbox(),
{
    Hitbox { width: 58_000, height: 100_000 }
}

impl Player {
    pub open spec fn wf(&self) -> bool {
        &&& self.position.in_world()
        &&& is_direction(self.direction_vector)
        &&& 0 <= self.speed <= PLAYER_SPEED
    }
}

/// The defended point at the start of a game: in the middle of the screen,
/// at rest, with full health and the starting currency.
pub fn spawn_player(screen: &Screen, now: u64) -> (r: Player)
    requires
        screen.wf(),
    ensures
        r.wf(),
        r.health == PLAYER_MAX_HEALTH,
        r.speed == 0,
        r.direction_vector == (Point { x: 0, y: 0 }),
        r.position.x == screen.width / 2,
        r.position.y == screen.height / 2,
        r.collectibles@ == seq![STARTING_BONES, 0i32, 0i32, 0i32],
        r.invulnerable_since == now,
        !r.movement_keys_pressed,
{
    let mut collectibles: Vec<i32> = Vec::new();
    collectibles.push(STARTING_BONES);
    collectibles.push(0);
    collectibles.push(0);
    collectibles.push(0);
    assert(collectibles@ =~= seq![STARTING_BONES, 0i32, 0i32, 0i32]);
    Player {
        health: PLAYER_MAX_HEALTH,
        speed: 0,
        direction_vector: Point { x: 0, y: 0 },
        movement_keys_pressed: false,
        collectibles,
        position: Point { x: screen.width / 2, y: screen.height / 2 },
        invulnerable_since: now,
    }
}

/// The input direction of the movement keys, before normalisation.
pub open spec fn key_vector(up: bool, left: bool, down: bool, right: bool) -> Point {
    Point {
        x: ((if right { 1000int } else { 0 }) - (if left { 1000int } else { 0 })) as i64,
        y: ((if up { 1000int } else { 0 }) - (if down { 1000int } else { 0 })) as i64,
    }
}

/// Speed after `dt` milliseconds of accelerating (or of slowing down),
/// within zero and the top speed.
pub open spec fn next_speed(speed: int, accelerating: bool, dt: int) -> int {
    let gain = PLAYER_ACCELERATION * dt / 1000;
    if accelerating {
        if speed + gain > PLAYER_SPEED { PLAYER_SPEED as int } else { speed + gain }
    } else {
        if speed - gain < 0 { 0 } else { speed - gain }
    }
}

/// Where the defended point ends after a tick, with the direction it keeps.
pub open spec fn player_step(p: Player, input: Point, s: Screen, dt: int) -> (Point, Point) {
    let moving = input != Point { x: 0, y: 0 };
    let dir = if moving { input } else { p.direction_vector };
    let speed = next_speed(p.speed as int, moving, dt);
    let (x, y) = advanced(p.position, dir, speed, dt);
    if on_screen(Point { x: x as i64, y: y as i64 }, s) {
        (Point { x: x as i64, y: y as i64 }, dir)
    } else {
        let back = Point { x: -input.x as i64, y: -input.y as i64 };
        let (bx, by) = advanced(p.position, back, speed, dt);
        (Point { x: clamp_world(bx) as i64, y: clamp_world(by) as i64 }, back)
    }
}

/// Moves the defended point by the movement keys: the keys give a direction
/// of length one thousand; while one is held the point speeds up to its top
/// speed, else it slows to rest along its last direction. A step that would
/// leave the screen is taken backwards against the keys instead.
pub fn move_player(
    player: &mut Player,
    up: bool,
    left: bool,
    down: bool,
    right: bool,
    screen: &Screen,
    delta: u64,
)
    requires
        old(player).wf(),
        screen.wf(),
        delta <= DELTA_LIMIT,
    ensures
        final(player).wf(),
        final(player).movement_keys_pressed == (up || left || down || right),
        final(player).speed == next_speed(
            old(player).speed as int,
            normalized(key_vector(up, left, down, right)) != (Point { x: 0, y: 0 }),
            delta as int,
        ),
        (final(player).position, final(player).direction_vector) == player_step(
            *old(player),
            normalized(key_vector(up, left, down, right)),
            *screen,
            delta as int,
        ),
        final(player).health == old(player).health,
        final(player).collectibles == old(player).collectibles,
        final(player).invulnerable_since == old(player).invulnerable_since,
{
    let mut keys = Point { x: 0, y: 0 };
    let mut pressed = false;
    if up {
        pressed = true;
        keys.y = keys.y + 1000;
    }
    if left {
        pressed = true;
        keys.x = keys.x - 1000;
    }
    if down {
        pressed = true;
        keys.y = keys.y - 1000;
    }
    if right {
        pressed = true;
        keys.x = keys.x + 1000;
    }
    assert(keys == key_vector(up, left, down, right));
    player.movement_keys_pressed = pressed;
    let input = normalize(&keys);
    let gain = PLAYER_ACCELERATION * delta as i64 / 1000;
    if input.x != 0 || input.y != 0 {
        player.direction_vector = input;
        player.speed = if player.speed + gain > PLAYER_SPEED {
            PLAYER_SPEED
        } else {
            player.speed + gain
        };
    } else {
        player.speed = if player.speed - gain < 0 {
            0
        } else {
            player.speed - gain
        };
    }
    let next = advance(&player.position, &player.direction_vector, player.speed, delta);
    if is_on_screen(&next, screen) {
        player.position = next;
    } else {
        let back = Point { x: -input.x, y: -input.y };
        player.direction_vector = back;
        let moved = advance(&player.position, &back, player.speed, delta);
        player.position = Point {
            x: clamp_to_world(moved.x as i128),
            y: clamp_to_world(moved.y as i128),
        };
    }
}

/// Some hostile of `cs` touches the defended point at `at`.
pub open spec fn touched_by_enemy(at: Point, cs: Seq<Character>, types: Seq<CharacterInfo>) -> bool {
    exists|i: int|
        0 <= i < cs.len() && colliding(
            player_hitbox(),
            at,
            types[cs[i].type_index as int].hitbox,
            #[trigger] cs[i].position,
        )
}

/// The projectile `p` is a hostile one that touches the defended point at `at`.
pub open spec fn hits_player(p: Projectile, at: Point, ptypes: Seq<ProjectileInfo>) -> bool {
    let pi = ptypes[p.projectile_types_index as int];
    pi.enemy && colliding(player_hitbox(), at, pi.hitbox, p.position)
}

/// The projectiles of `ps` that do not hit the defended point at `at`.
pub open spec fn missing_player(ps: Seq<Projectile>, at: Point, ptypes: Seq<ProjectileInfo>) -> Seq<
    Projectile,
>
    decreases ps.len(),
{
    if ps.len() == 0 {
        Seq::empty()
    } else {
        let rest = missing_player(ps.drop_last(), at, ptypes);
        if hits_player(ps.last(), at, ptypes) {
            rest
        } else {
            rest.push(ps.last())
        }
    }
}

/// The invulnerability after the last hit of the defended point has run out.
pub open spec fn player_vulnerable(since: u64, now: u64) -> bool {
    now as int - since as int >= PLAYER_INVULNERABILITY as int
}

/// Hits the defended point by touching hostiles and hostile projectiles.
/// Every hostile projectile that touches it goes. Any touch costs one
/// health, whatever its source, once the invulnerability of the last hit
/// has run out, and starts it anew. Returns the remaining projectiles.
pub fn collisions(
    player: &mut Player,
    enemies: &Vec<Character>,
    enemy_types: &EnemyTypes,
    projectiles: &Vec<Projectile>,
    projectile_types: &ProjectileTypes,
    now: u64,
) -> (r: Vec<Projectile>)
    requires
        types_valid(enemies@, enemy_types.0@),
        projectile_types_valid(projectiles@, projectile_types.0@),
    ensures
        r@ == missing_player(projectiles@, old(player).position, projectile_types.0@),
        ({
            let hit = touched_by_enemy(old(player).position, enemies@, enemy_types.0@) || r@.len()
                < projectiles@.len();
            if hit && player_vulnerable(old(player).invulnerable_since, now) {
                final(player).health == health_after(old(player).health as int, 1)
                    && final(player).invulnerable_since == now
            } else {
                final(player).health == old(player).health
                    && final(player).invulnerable_since == old(player).invulnerable_since
            }
        }),
        final(player).position == old(player).position,
        final(player).direction_vector == old(player).direction_vector,
        final(player).speed == old(player).speed,
        final(player).collectibles == old(player).collectibles,
        final(player).movement_keys_pressed == old(player).movement_keys_pressed,
        forall|i: int| 0 <= i < r@.len() ==> projectiles@.contains(#[trigger] r@[i]),
{
    let hitbox = player_hitbox_value();
    let mut collision = false;
    let mut i: usize = 0;
    while i < enemies.len()
        invariant
            i <= enemies@.len(),
            hitbox == player_hitbox(),
            types_valid(enemies@, enemy_types.0@),
            collision == exists|k: int|
                0 <= k < i && colliding(
                    player_hitbox(),
                    player.position,
                    enemy_types.0@[enemies@[k].type_index as int].hitbox,
                    #[trigger] enemies@[k].position,
                ),
        decreases enemies@.len() - i,
    {
        let c = &enemies[i];
        let info = &enemy_types.0[c.type_index];
        if are_hitboxes_colliding(&hitbox, &player.position, &info.hitbox, &c.position) {
            collision = true;
        }
        i += 1;
    }
    let ghost ps = projectiles@;
    let mut kept: Vec<Projectile> = Vec::new();
    let mut j: usize = 0;
    while j < projectiles.len()
        invariant
            j <= ps.len(),
            ps == projectiles@,
            hitbox == player_hitbox(),
            projectile_types_valid(ps, projectile_types.0@),
            kept@ == missing_player(ps.subrange(0, j as int), player.position, projectile_types.0@),
            kept@.len() <= j,
            forall|k: int| 0 <= k < kept@.len() ==> ps.contains(#[trigger] kept@[k]),
            collision == (touched_by_enemy(player.position, enemies@, enemy_types.0@) || kept@.len() < j),
        decreases ps.len() - j,
    {
        let p = projectiles[j];
        proof {
            let next = ps.subrange(0, j as int + 1);
            assert(next.drop_last() =~= ps.subrange(0, j as int));
            assert(next.last() == p);
        }
        let info = &projectile_types.0[p.projectile_types_index];
        if info.enemy && are_hitboxes_colliding(&hitbox, &player.position, &info.hitbox, &p.position) {
            collision = true;
        } else {
            kept.push(p);
        }
        j += 1;
    }
    proof {
        assert(ps.subrange(0, ps.len() as int) =~= ps);
    }
    if collision && now >= player.invulnerable_since && now - player.invulnerable_since
        >= PLAYER_INVULNERABILITY {
        player.health = if player.health == i32::MIN {
            i32::MIN
        } else {
            player.health - 1
        };
        player.invulnerable_since = now;
    }
    kept
}

/// Restores the defended point to full health, as each wave starts.
pub fn heal_player(player: &mut Player)
    ensures
        final(player).health == PLAYER_MAX_HEALTH,
        final(player).position == old(player).position,
        final(player).collectibles == old(player).collectibles,
        final(player).invulnerable_since == old(player).invulnerable_since,
        final(player).speed == old(player).speed,
        final(player).direction_vector == old(player).direction_vector,
        final(player).movement_keys_pressed == old(player).movement_keys_pressed,
{
    player.health = PLAYER_MAX_HEALTH;
}

/// The game is over once the defended point has no health left.
pub fn check_for_game_over(player: &Player) -> (r: bool)
    ensures
        r == (player.health == 0),
{
    player.health == 0
}

} // verus!
