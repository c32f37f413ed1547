use vstd::prelude::*;
use rand::Rng;
use crate::hitboxes::Point;
use crate::helpers::Screen;
use crate::characters::{Character, CharacterInfo, EnemyTypes, SummonTypes, table_wf};
use crate::difficulty::Difficulty;
use crate::registry::PositionRegistry;

verus! {

/// Part of the screen height, in thousandths, that the hostile spawn ring
/// reaches out at least.
pub const SPAWN_RADIUS_BASE_MULTIPLIER: i64 = 250;

/// Growth of the hostile spawn ring per wave, in thousandths of a world unit.
pub const SPAWN_RADIUS_SCALER: i64 = 20_000;

/// Margin around the screen in which no hostile spawns.
pub const SPAWN_PADDING: i64 = 20_000;

/// Draws of a spawn position before falling back to a fixed one.
pub const MAX_SPAWN_ATTEMPTS: u32 = 1000;

/// Range, in milliseconds, of the random animation phase of a new character.
pub const ANIMATION_START_OFFSET: i64 = 300;

/// Relies on `rand::Rng::gen_range` over `rand::thread_rng()`: a value drawn
/// from the half-open range, which must not be empty (it panics otherwise).
#[verifier::external_body]
fn random_range(low: i64, high: i64) -> (r: i64)
    requires
        low < high,
    ensures
        low <= r < high,
{
    rand::thread_rng().gen_range(low..high)
}

/// Inside the screen rectangle widened by the spawn padding.
pub open spec fn inside_padded(p: Point, s: Screen) -> bool {
    -SPAWN_PADDING < p.x < s.width + SPAWN_PADDING && -SPAWN_PADDING < p.y < s.height
        + SPAWN_PADDING
}

/// Half-width of the spawn ring beyond the padding in the given wave.
pub open spec fn spawn_reach(s: Screen, wave: int) -> int {
    (s.height * SPAWN_RADIUS_BASE_MULTIPLIER / 1000 + wave * SPAWN_RADIUS_SCALER) * 2
}

/// Within the square from which spawn positions are drawn.
pub open spec fn in_spawn_square(p: Point, s: Screen, wave: int) -> bool {
    let d = spawn_reach(s, wave);
    -d - SPAWN_PADDING <= p.x < s.width + d + SPAWN_PADDING && -d - SPAWN_PADDING <= p.y
        < s.height + d + SPAWN_PADDING
}

/// The position used when no draw landed outside the padded screen.
pub open spec fn fallback_position(s: Screen) -> Point {
    Point { x: (-SPAWN_PADDING) as i64, y: (s.height / 2) as i64 }
}

/// A hostile type with weight `weight` is chosen by a draw in [1, 100]
/// when the draw is at least the distance of the weight from one hundred.
pub open spec fn selects(weight: int, draw: int) -> bool {
    let gap = 100 - weight;
    (if gap < 0 { -gap } else { gap }) <= draw
}

/// The first type whose own draw selects it.
pub open spec fn first_selected(w: Seq<u8>, draws: Seq<i64>) -> Option<usize> {
    if exists|j: int| 0 <= j < w.len() && selects(w[j] as int, draws[j] as int) {
        let j = choose|j: int|
            0 <= j < w.len() && selects(w[j] as int, draws[j] as int) && forall|k: int|
                0 <= k < j ==> !selects(w[k] as int, draws[k] as int);
        Some(j as usize)
    } else {
        None
    }
}

/// Returns true when `position` lies inside the screen widened by the
/// spawn padding, where no hostile may spawn.
pub fn is_inside_padded(position: &Point, screen: &Screen) -> (r: bool)
    ensures
        r == inside_padded(*position, *screen),
{
    position.x > -SPAWN_PADDING && (position.x as i128) < screen.width as i128 + SPAWN_PADDING as i128
        && position.y > -SPAWN_PADDING && (position.y as i128) < screen.height as i128
        + SPAWN_PADDING as i128
}

/// The first candidate, from index `i` on, that lies outside the padded
/// screen, or the fallback position when there is none.
pub open spec fn first_outside(c: Seq<Point>, s: Screen, i: int) -> Point
    decreases c.len() - i,
{
    if i < 0 || i >= c.len() {
        fallback_position(s)
    } else if !inside_padded(c[i], s) {
        c[i]
    } else {
        first_outside(c, s, i + 1)
    }
}

/// The spawn position that a sequence of drawn candidates gives.
pub open spec fn spawn_choice(c: Seq<Point>, s: Screen) -> Point {
    first_outside(c, s, 0)
}

/// The random draws behind one hostile of a wave spawn.
pub struct SpawnRoll {
    /// Positions drawn in the spawn square, in order.
    pub candidates: Vec<Point>,
    /// One draw in [1, 100] per hostile type.
    pub type_draws: Vec<i64>,
    /// Milliseconds added to the animation phase.
    pub animation_offset: i64,
}

/// A roll as drawing makes it: candidates from the spawn square, drawn
/// until one falls outside the padded screen or the attempts run out; one
/// draw in [1, 100] per type; an offset below the animation range.
pub open spec fn roll_wf(r: SpawnRoll, s: Screen, wave: int, kinds: int) -> bool {
    let c = r.candidates@;
    &&& 1 <= c.len() <= MAX_SPAWN_ATTEMPTS
    &&& forall|k: int| 0 <= k < c.len() ==> in_spawn_square(#[trigger] c[k], s, wave)
    &&& forall|k: int| 0 <= k < c.len() - 1 ==> inside_padded(#[trigger] c[k], s)
    &&& (!inside_padded(c.last(), s) || c.len() == MAX_SPAWN_ATTEMPTS)
    &&& r.type_draws@.len() == kinds
    &&& forall|k: int| 0 <= k < kinds ==> 1 <= #[trigger] r.type_draws@[k] <= 100
    &&& 0 <= r.animation_offset < ANIMATION_START_OFFSET
}

/// Picks the spawn position from drawn candidates: the first one outside
/// the padded screen, or the fallback position when all fell inside.
pub fn choose_spawn_position(candidates: &Vec<Point>, screen: &Screen) -> (r: Point)
    requires
        screen.wf(),
    ensures
        r == spawn_choice(candidates@, *screen),
{
    let mut i: usize = 0;
    while i < candidates.len()
        invariant
            i <= candidates@.len(),
            spawn_choice(candidates@, *screen) == first_outside(candidates@, *screen, i as int),
        decreases candidates@.len() - i,
    {
        if !is_inside_padded(&candidates[i], screen) {
            return candidates[i];
        }
        i += 1;
    }
    assert(first_outside(candidates@, *screen, i as int) == fallback_position(*screen));
    Point { x: -SPAWN_PADDING, y: screen.height / 2 }
}

/// Draws candidate positions in the spawn square of `wave` until one falls
/// outside the padded screen, at most the attempt limit.
fn draw_candidates(screen: &Screen, wave: u32) -> (c: Vec<Point>)
    requires
        screen.wf(),
    ensures
        1 <= c@.len() <= MAX_SPAWN_ATTEMPTS,
        forall|k: int| 0 <= k < c@.len() ==> in_spawn_square(#[trigger] c@[k], *screen, wave as int),
        forall|k: int| 0 <= k < c@.len() - 1 ==> inside_padded(#[trigger] c@[k], *screen),
        !inside_padded(c@.last(), *screen) || c@.len() == MAX_SPAWN_ATTEMPTS,
{
    let radius = screen.height * SPAWN_RADIUS_BASE_MULTIPLIER / 1000;
    assert(0 <= wave * SPAWN_RADIUS_SCALER <= 0x1_0000_0000 * SPAWN_RADIUS_SCALER) by (
    nonlinear_arith)
        requires
            0 <= wave < 0x1_0000_0000,
    ;
    let diameter = (radius + wave as i64 * SPAWN_RADIUS_SCALER) * 2;
    let mut c: Vec<Point> = Vec::new();
    while c.len() < MAX_SPAWN_ATTEMPTS as usize
        invariant
            screen.wf(),
            diameter == spawn_reach(*screen, wave as int),
            0 <= diameter <= 0x1_0000_0000_0000,
            c@.len() <= MAX_SPAWN_ATTEMPTS,
            forall|k: int| 0 <= k < c@.len() ==> in_spawn_square(#[trigger] c@[k], *screen, wave as int),
            forall|k: int| 0 <= k < c@.len() ==> inside_padded(#[trigger] c@[k], *screen),
        decreases MAX_SPAWN_ATTEMPTS - c@.len(),
    {
        let x = random_range(-diameter - SPAWN_PADDING, screen.width + diameter + SPAWN_PADDING);
        let y = random_range(-diameter - SPAWN_PADDING, screen.height + diameter + SPAWN_PADDING);
        let p = Point { x, y };
        c.push(p);
        if !is_inside_padded(&p, screen) {
            return c;
        }
    }
    c
}

/// Draws everything that one hostile of a wave spawn needs.
pub fn roll_spawn(screen: &Screen, wave: u32, kinds: usize) -> (r: SpawnRoll)
    requires
        screen.wf(),
    ensures
        roll_wf(r, *screen, wave as int, kinds as int),
{
    let candidates = draw_candidates(screen, wave);
    let mut type_draws: Vec<i64> = Vec::new();
    let mut k: usize = 0;
    while k < kinds
        invariant
            k <= kinds,
            type_draws@.len() == k,
            forall|j: int| 0 <= j < k ==> 1 <= #[trigger] type_draws@[j] <= 100,
        decreases kinds - k,
    {
        type_draws.push(random_range(1, 101));
        k += 1;
    }
    let animation_offset = random_range(0, ANIMATION_START_OFFSET);
    SpawnRoll { candidates, type_draws, animation_offset }
}

/// Returns true when a draw of `draw` selects a hostile type of `weight`.
pub fn chance_selects(weight: u8, draw: i64) -> (r: bool)
    ensures
        r == selects(weight as int, draw as int),
{
    let gap = 100 - weight as i64;
    let gap = if gap < 0 {
        -gap
    } else {
        gap
    };
    gap <= draw
}

/// Picks a hostile type from the spawn weights and one draw per type: the
/// first type, in ascending order, that its draw selects; None when no draw
/// selects its type.
pub fn select_enemy_type(spawn_chance: &Vec<u8>, draws: &Vec<i64>) -> (r: Option<usize>)
    requires
        draws@.len() >= spawn_chance@.len(),
    ensures
        r == first_selected(spawn_chance@, draws@),
        r matches Some(j) ==> j < spawn_chance@.len(),
{
    let ghost w = spawn_chance@;
    let ghost ds = draws@;
    let mut j: usize = 0;
    while j < spawn_chance.len()
        invariant
            j <= w.len() <= ds.len(),
            w == spawn_chance@,
            ds == draws@,
            forall|k: int| 0 <= k < j ==> !selects(w[k] as int, ds[k] as int),
        decreases w.len() - j,
    {
        if chance_selects(spawn_chance[j], draws[j]) {
            proof {
                let c = choose|c: int|
                    0 <= c < w.len() && selects(w[c] as int, ds[c] as int) && forall|k: int|
                        0 <= k < c ==> !selects(w[k] as int, ds[k] as int);
                assert(c == j as int) by {
                    if c < j {
                    } else if c > j {
                        assert(!selects(w[j as int] as int, ds[j as int] as int));
                    }
                }
            }
            return Some(j);
        }
        j += 1;
    }
    None
}

/// A newly spawned character of type `t` and `info` at `position` in slot
/// `slot`, with full health, whose last damage is `now`.
pub open spec fn fresh(c: Character, t: usize, info: CharacterInfo, position: Point, slot: usize, now: u64) -> bool {
    &&& c.type_index == t
    &&& c.health == info.max_health
    &&& c.position == position
    &&& c.position_index == slot
    &&& c.last_damage == now
    &&& c.direction_vector == Point { x: 0, y: 0 }
    &&& now <= c.last_animation_frame < now + ANIMATION_START_OFFSET
}

/// Slot `k` holds the position of a character of `cs` from index `first`
/// on, whose slot it is.
pub open spec fn slot_held(slots: Seq<Option<Point>>, cs: Seq<Character>, first: int, k: int) -> bool {
    exists|i: int|
        first <= i < cs.len() && slots[k] == Some(cs[i].position) && #[trigger] cs[i].position_index
            == k
}

/// Adds a character of type `t` at `position` in a new slot of `positions`.
fn spawn_character(
    characters: &mut Vec<Character>,
    positions: &mut PositionRegistry,
    t: usize,
    info: &CharacterInfo,
    position: Point,
    summon: bool,
    now: u64,
)
    requires
        old(positions).0@.len() < usize::MAX,
        now <= u64::MAX - ANIMATION_START_OFFSET,
    ensures
        final(positions).0@ == old(positions).0@.push(Some(position)),
        final(characters)@.len() == old(characters)@.len() + 1,
        final(characters)@.drop_last() == old(characters)@,
        fresh(final(characters)@.last(), t, *info, position, old(positions).0@.len() as usize, now),
        final(characters)@.last().summon == summon,
        final(characters)@.last().last_shot == (if summon { Some(now) } else { None }),
{
    let offset = random_range(0, ANIMATION_START_OFFSET);
    let slot = positions.allocate(position);
    let c = Character {
        health: info.max_health,
        last_shot: if summon {
            Some(now)
        } else {
            None
        },
        last_damage: now,
        direction_vector: Point { x: 0, y: 0 },
        type_index: t,
        summon,
        position_index: slot,
        last_animation_frame: now + offset as u64,
        position,
    };
    let ghost before = characters@;
    characters.push(c);
    assert(characters@.drop_last() =~= before);
}

/// Every candidate fell inside the padded screen: the search ran out.
pub open spec fn exhausted(c: Seq<Point>, s: Screen) -> bool {
    forall|k: int| 0 <= k < c.len() ==> inside_padded(#[trigger] c[k], s)
}

/// How many of `rolls` spawn a hostile after their position search ran out.
pub open spec fn exhausted_count(w: Seq<u8>, rolls: Seq<SpawnRoll>, s: Screen) -> int
    decreases rolls.len(),
{
    if rolls.len() == 0 {
        0
    } else {
        let r = rolls.last();
        exhausted_count(w, rolls.drop_last(), s) + if roll_outcome(w, r, s) is Some && exhausted(
            r.candidates@,
            s,
        ) {
            1int
        } else {
            0
        }
    }
}

/// Returns true when every candidate lies inside the padded screen, so that
/// the spawn position falls back to the fixed one.
pub fn sampling_exhausted(candidates: &Vec<Point>, screen: &Screen) -> (r: bool)
    ensures
        r == exhausted(candidates@, *screen),
{
    let mut i: usize = 0;
    while i < candidates.len()
        invariant
            i <= candidates@.len(),
            forall|k: int| 0 <= k < i ==> inside_padded(#[trigger] candidates@[k], *screen),
        decreases candidates@.len() - i,
    {
        if !is_inside_padded(&candidates[i], screen) {
            return false;
        }
        i += 1;
    }
    true
}

/// The type, position and animation offset that a roll gives a hostile,
/// or None when its draws select no type.
pub open spec fn roll_outcome(w: Seq<u8>, r: SpawnRoll, s: Screen) -> Option<(usize, Point, i64)> {
    match first_selected(w, r.type_draws@) {
        Some(t) => Some((t, spawn_choice(r.candidates@, s), r.animation_offset)),
        None => None,
    }
}

/// The outcomes of the rolls that spawn a hostile, in order.
pub open spec fn roll_outcomes(w: Seq<u8>, rolls: Seq<SpawnRoll>, s: Screen) -> Seq<
    (usize, Point, i64),
>
    decreases rolls.len(),
{
    if rolls.len() == 0 {
        Seq::empty()
    } else {
        let rest = roll_outcomes(w, rolls.drop_last(), s);
        match roll_outcome(w, rolls.last(), s) {
            Some(o) => rest.push(o),
            None => rest,
        }
    }
}

/// The hostile that outcome `o` spawns into slot `slot` at `now`.
pub open spec fn hostile_from(
    o: (usize, Point, i64),
    types: Seq<CharacterInfo>,
    slot: int,
    now: u64,
) -> Character {
    Character {
        health: types[o.0 as int].max_health,
        last_shot: None,
        last_damage: now,
        direction_vector: Point { x: 0, y: 0 },
        type_index: o.0,
        summon: false,
        position_index: slot as usize,
        last_animation_frame: (now + o.2) as u64,
        position: o.1,
    }
}

/// The hostiles that `rolls` spawn, from slot `first_slot` on.
pub open spec fn hostiles_from(
    w: Seq<u8>,
    rolls: Seq<SpawnRoll>,
    s: Screen,
    types: Seq<CharacterInfo>,
    first_slot: int,
    now: u64,
) -> Seq<Character> {
    let outs = roll_outcomes(w, rolls, s);
    Seq::new(outs.len(), |i: int| hostile_from(outs[i], types, first_slot + i, now))
}

/// The registry entries of the hostiles that `rolls` spawn.
pub open spec fn slots_from(w: Seq<u8>, rolls: Seq<SpawnRoll>, s: Screen) -> Seq<Option<Point>> {
    let outs = roll_outcomes(w, rolls, s);
    Seq::new(outs.len(), |i: int| Some(outs[i].1))
}

/// Spawns hostiles from given rolls, in order: each roll whose draws select
/// a type adds a hostile of that type with full health at the position its
/// candidates give, in a new slot; a roll that selects none adds nothing.
pub fn spawn_enemies_with(
    difficulty: &Difficulty,
    enemy_types: &EnemyTypes,
    screen: &Screen,
    enemy_positions: &mut PositionRegistry,
    enemies: &mut Vec<Character>,
    now: u64,
    rolls: &Vec<SpawnRoll>,
) -> (fallbacks: usize)
    requires
        screen.wf(),
        difficulty.enemy_spawn_chance@.len() <= enemy_types.0@.len(),
        forall|k: int|
            0 <= k < rolls@.len() ==> (#[trigger] rolls@[k]).type_draws@.len()
                >= difficulty.enemy_spawn_chance@.len() && 0 <= rolls@[k].animation_offset
                < ANIMATION_START_OFFSET,
        now <= u64::MAX - ANIMATION_START_OFFSET,
        old(enemy_positions).0@.len() + rolls@.len() < usize::MAX,
        old(enemies)@.len() + rolls@.len() < usize::MAX,
    ensures
        final(enemies)@ == old(enemies)@ + hostiles_from(
            difficulty.enemy_spawn_chance@,
            rolls@,
            *screen,
            enemy_types.0@,
            old(enemy_positions).0@.len() as int,
            now,
        ),
        final(enemy_positions).0@ == old(enemy_positions).0@ + slots_from(
            difficulty.enemy_spawn_chance@,
            rolls@,
            *screen,
        ),
        fallbacks == exhausted_count(difficulty.enemy_spawn_chance@, rolls@, *screen),
{
    let ghost w = difficulty.enemy_spawn_chance@;
    let ghost e0 = enemies@;
    let ghost r0 = enemy_positions.0@;
    let ghost et = enemy_types.0@;
    let ghost all = rolls@;
    let mut fallbacks: usize = 0;
    let mut i: usize = 0;
    while i < rolls.len()
        invariant
            i <= all.len(),
            all == rolls@,
            w == difficulty.enemy_spawn_chance@,
            et == enemy_types.0@,
            w.len() <= et.len(),
            screen.wf(),
            forall|k: int|
                0 <= k < all.len() ==> (#[trigger] all[k]).type_draws@.len() >= w.len() && 0
                    <= all[k].animation_offset < ANIMATION_START_OFFSET,
            now <= u64::MAX - ANIMATION_START_OFFSET,
            r0.len() + all.len() < usize::MAX,
            e0.len() + all.len() < usize::MAX,
            roll_outcomes(w, all.subrange(0, i as int), *screen).len() <= i,
            fallbacks == exhausted_count(w, all.subrange(0, i as int), *screen),
            exhausted_count(w, all.subrange(0, i as int), *screen) <= i,
            enemies@ == e0 + hostiles_from(w, all.subrange(0, i as int), *screen, et, r0.len() as int, now),
            enemy_positions.0@ == r0 + slots_from(w, all.subrange(0, i as int), *screen),
        decreases all.len() - i,
    {
        let roll = &rolls[i];
        let ghost pre = all.subrange(0, i as int);
        let ghost next = all.subrange(0, i as int + 1);
        proof {
            assert(next.drop_last() =~= pre);
            assert(next.last() == all[i as int]);
        }
        let position = choose_spawn_position(&roll.candidates, screen);
        match select_enemy_type(&difficulty.enemy_spawn_chance, &roll.type_draws) {
            Some(t) => {
                if sampling_exhausted(&roll.candidates, screen) {
                    fallbacks = fallbacks + 1;
                }
                let ghost outs = roll_outcomes(w, next, *screen);
                let ghost o = (t, position, roll.animation_offset);
                let slot = enemy_positions.allocate(position);
                let c = Character {
                    health: enemy_types.0[t].max_health,
                    last_shot: None,
                    last_damage: now,
                    direction_vector: Point { x: 0, y: 0 },
                    type_index: t,
                    summon: false,
                    position_index: slot,
                    last_animation_frame: now + roll.animation_offset as u64,
                    position,
                };
                enemies.push(c);
                proof {
                    assert(outs == roll_outcomes(w, pre, *screen).push(o));
                    assert(c == hostile_from(o, et, r0.len() + outs.len() - 1, now));
                    assert(enemies@ =~= e0 + hostiles_from(w, next, *screen, et, r0.len() as int, now));
                    assert(enemy_positions.0@ =~= r0 + slots_from(w, next, *screen));
                }
            },
            None => {
                proof {
                    assert(roll_outcomes(w, next, *screen) == roll_outcomes(w, pre, *screen));
                }
            },
        }
        i += 1;
    }
    proof {
        assert(all.subrange(0, all.len() as int) =~= all);
    }
    fallbacks
}

proof fn lemma_minimal_selected(w: Seq<u8>, d: Seq<i64>, j: int)
    requires
        0 <= j < w.len(),
        selects(w[j] as int, d[j] as int),
    ensures
        exists|m: int|
            0 <= m < w.len() && selects(w[m] as int, d[m] as int) && forall|k: int|
                0 <= k < m ==> !selects(w[k] as int, d[k] as int),
    decreases j,
{
    if exists|k: int| 0 <= k < j && selects(w[k] as int, d[k] as int) {
        let k = choose|k: int| 0 <= k < j && selects(w[k] as int, d[k] as int);
        lemma_minimal_selected(w, d, k);
    }
}

/// Draws in [1, 100] for each type select a valid type whenever some
/// weight lies within one of one hundred; and any type they select is one
/// of the weights.
proof fn lemma_selection(w: Seq<u8>, d: Seq<i64>)
    requires
        d.len() == w.len(),
        forall|k: int| 0 <= k < d.len() ==> 1 <= #[trigger] d[k] <= 100,
    ensures
        (exists|j: int| 0 <= j < w.len() && selects(w[j] as int, 1)) ==> first_selected(w, d) is Some,
        first_selected(w, d) matches Some(t) ==> t < w.len(),
{
    if exists|j: int| 0 <= j < w.len() && selects(w[j] as int, d[j] as int) {
        let j = choose|j: int| 0 <= j < w.len() && selects(w[j] as int, d[j] as int);
        lemma_minimal_selected(w, d, j);
    }
    if exists|j: int| 0 <= j < w.len() && selects(w[j] as int, 1) {
        let j = choose|j: int| 0 <= j < w.len() && selects(w[j] as int, 1);
        assert(selects(w[j] as int, d[j] as int));
        lemma_minimal_selected(w, d, j);
    }
}

proof fn lemma_first_outside(c: Seq<Point>, s: Screen, i: int)
    requires
        0 <= i < c.len(),
        forall|k: int| 0 <= k < c.len() - 1 ==> inside_padded(#[trigger] c[k], s),
    ensures
        first_outside(c, s, i) == (if !inside_padded(c.last(), s) {
            c.last()
        } else {
            fallback_position(s)
        }),
    decreases c.len() - i,
{
    assert(c.last() == c[c.len() - 1]);
    assert(first_outside(c, s, c.len() as int) == fallback_position(s));
    if i < c.len() - 1 {
        assert(inside_padded(c[i], s));
        lemma_first_outside(c, s, i + 1);
    }
}

/// What holds of an outcome of a roll drawn for a wave spawn.
pub open spec fn outcome_ok(o: (usize, Point, i64), w: Seq<u8>, s: Screen, wave: int) -> bool {
    &&& exists|d: Seq<i64>|
        d.len() == w.len() && (forall|k: int| 0 <= k < d.len() ==> 1 <= #[trigger] d[k] <= 100)
            && #[trigger] first_selected(w, d) == Some(o.0)
    &&& o.0 < w.len()
    &&& !inside_padded(o.1, s)
    &&& in_spawn_square(o.1, s, wave) || o.1 == fallback_position(s)
    &&& 0 <= o.2 < ANIMATION_START_OFFSET
}

proof fn lemma_outcomes(w: Seq<u8>, rolls: Seq<SpawnRoll>, s: Screen, wave: int)
    requires
        forall|k: int| 0 <= k < rolls.len() ==> roll_wf(#[trigger] rolls[k], s, wave, w.len() as int),
    ensures
        roll_outcomes(w, rolls, s).len() <= rolls.len(),
        (exists|j: int| 0 <= j < w.len() && selects(w[j] as int, 1)) ==> roll_outcomes(
            w,
            rolls,
            s,
        ).len() == rolls.len(),
        forall|i: int|
            0 <= i < roll_outcomes(w, rolls, s).len() ==> outcome_ok(
                #[trigger] roll_outcomes(w, rolls, s)[i],
                w,
                s,
                wave,
            ),
    decreases rolls.len(),
{
    if rolls.len() > 0 {
        let pre = rolls.drop_last();
        assert forall|k: int| 0 <= k < pre.len() implies roll_wf(#[trigger] pre[k], s, wave, w.len() as int) by {
            assert(pre[k] == rolls[k]);
        }
        lemma_outcomes(w, pre, s, wave);
        let r = rolls.last();
        assert(roll_wf(rolls[rolls.len() - 1], s, wave, w.len() as int));
        lemma_selection(w, r.type_draws@);
        lemma_first_outside(r.candidates@, s, 0);
        let outs = roll_outcomes(w, rolls, s);
        let po = roll_outcomes(w, pre, s);
        match roll_outcome(w, r, s) {
            Some(o) => {
                let c = r.candidates@;
                assert(in_spawn_square(c[c.len() - 1], s, wave));
                assert(outcome_ok(o, w, s, wave));
                assert forall|i: int| 0 <= i < outs.len() implies outcome_ok(#[trigger] outs[i], w, s, wave) by {
                    if i < po.len() {
                        assert(outs[i] == po[i]);
                    }
                }
            },
            None => {},
        }
    }
}

/// The spawn square lies within the world.
proof fn lemma_square_in_world(p: Point, s: Screen, wave: int)
    requires
        s.wf(),
        0 <= wave <= u32::MAX,
        in_spawn_square(p, s, wave),
    ensures
        p.in_world(),
{
    assert(0 <= wave * SPAWN_RADIUS_SCALER <= 0x1_0000_0000 * SPAWN_RADIUS_SCALER) by (nonlinear_arith)
        requires
            0 <= wave <= u32::MAX,
    ;
}

/// What holds of each hostile that a wave spawn added at index `i`.
pub open spec fn spawned_hostile(
    c: Character,
    i: int,
    types: Seq<CharacterInfo>,
    w: Seq<u8>,
    slots: Seq<Option<Point>>,
    first_slot: int,
    first: int,
    s: Screen,
    wave: int,
    now: u64,
) -> bool {
    &&& exists|d: Seq<i64>|
        d.len() == w.len() && (forall|k: int| 0 <= k < d.len() ==> 1 <= #[trigger] d[k] <= 100)
            && #[trigger] first_selected(w, d) == Some(c.type_index)
    &&& c.type_index < w.len()
    &&& fresh(c, c.type_index, types[c.type_index as int], c.position, (first_slot + (i - first)) as usize, now)
    &&& !c.summon
    &&& c.last_shot is None
    &&& slots[c.position_index as int] == Some(c.position)
    &&& !inside_padded(c.position, s)
    &&& in_spawn_square(c.position, s, wave) || c.position == fallback_position(s)
    &&& c.position.in_world()
}

/// The hostiles `e1` with registry `r1` are what a wave spawn of `count`
/// rolls adds to `e0` and `r0`: as many as the rolls that select a type,
/// all of them when some weight is within one of one hundred (every draw
/// then selects), each fresh in its own new slot, placed outside the padded
/// screen in the spawn square or at the fallback position.
pub open spec fn wave_spawned(
    e0: Seq<Character>,
    r0: Seq<Option<Point>>,
    e1: Seq<Character>,
    r1: Seq<Option<Point>>,
    w: Seq<u8>,
    types: Seq<CharacterInfo>,
    s: Screen,
    wave: int,
    now: u64,
    count: int,
) -> bool {
    &&& e1.len() - e0.len() == r1.len() - r0.len()
    &&& e0.len() <= e1.len() <= e0.len() + count
    &&& (exists|j: int| 0 <= j < w.len() && selects(w[j] as int, 1)) ==> e1.len() == e0.len() + count
    &&& e1.subrange(0, e0.len() as int) == e0
    &&& r1.subrange(0, r0.len() as int) == r0
    &&& forall|i: int|
        e0.len() <= i < e1.len() ==> spawned_hostile(
            #[trigger] e1[i],
            i,
            types,
            w,
            r1,
            r0.len() as int,
            e0.len() as int,
            s,
            wave,
            now,
        )
    &&& forall|k: int| r0.len() <= k < r1.len() ==> #[trigger] slot_held(r1, e1, e0.len() as int, k)
}

/// Spawns the hostiles of a wave: one roll is drawn for each whole hostile
/// of the count target, and the hostiles spawn from those rolls.
pub fn spawn_enemies(
    difficulty: &Difficulty,
    enemy_types: &EnemyTypes,
    screen: &Screen,
    enemy_positions: &mut PositionRegistry,
    enemies: &mut Vec<Character>,
    now: u64,
) -> (fallbacks: usize)
    requires
        difficulty.enemy_spawn_chance@.len() <= enemy_types.0@.len(),
        screen.wf(),
        now <= u64::MAX - ANIMATION_START_OFFSET,
        old(enemy_positions).0@.len() + difficulty.enemies / 1000 < usize::MAX,
        old(enemies)@.len() + difficulty.enemies / 1000 < usize::MAX,
    ensures
        wave_spawned(
            old(enemies)@,
            old(enemy_positions).0@,
            final(enemies)@,
            final(enemy_positions).0@,
            difficulty.enemy_spawn_chance@,
            enemy_types.0@,
            *screen,
            difficulty.wave as int,
            now,
            (difficulty.enemies / 1000) as int,
        ),
        fallbacks <= final(enemies)@.len() - old(enemies)@.len(),
        fallbacks == 0 ==> forall|i: int|
            old(enemies)@.len() <= i < final(enemies)@.len() ==> in_spawn_square(
                #[trigger] final(enemies)@[i].position,
                *screen,
                difficulty.wave as int,
            ),
{
    let ghost w = difficulty.enemy_spawn_chance@;
    let ghost e0 = enemies@;
    let ghost r0 = enemy_positions.0@;
    let ghost et = enemy_types.0@;
    let kinds = difficulty.enemy_spawn_chance.len();
    let count = difficulty.enemies / 1000;
    let mut rolls: Vec<SpawnRoll> = Vec::new();
    let mut n: u64 = 0;
    while n < count
        invariant
            n <= count,
            rolls@.len() == n,
            screen.wf(),
            kinds == w.len(),
            w == difficulty.enemy_spawn_chance@,
            forall|k: int|
                0 <= k < rolls@.len() ==> roll_wf(#[trigger] rolls@[k], *screen, difficulty.wave as int, kinds as int),
        decreases count - n,
    {
        let r = roll_spawn(screen, difficulty.wave, kinds);
        rolls.push(r);
        n += 1;
    }
    let fallbacks = spawn_enemies_with(difficulty, enemy_types, screen, enemy_positions, enemies, now, &rolls);
    let n_slots = enemy_positions.0.len();
    proof {
        lemma_outcomes(w, rolls@, *screen, difficulty.wave as int);
        lemma_wave_spawned(
            e0,
            r0,
            enemies@,
            enemy_positions.0@,
            w,
            et,
            *screen,
            difficulty.wave as int,
            now,
            roll_outcomes(w, rolls@, *screen),
            count as int,
        );
        lemma_exhaustion(w, rolls@, *screen, difficulty.wave as int);
        let outs = roll_outcomes(w, rolls@, *screen);
        let e1 = enemies@;
        if fallbacks == 0 {
            assert forall|i: int| e0.len() <= i < e1.len() implies in_spawn_square(
                #[trigger] e1[i].position,
                *screen,
                difficulty.wave as int,
            ) by {
                assert(e1[i] == hostile_from(outs[i - e0.len()], et, r0.len() + i - e0.len(), now));
            }
        }
    }
    fallbacks
}

proof fn lemma_exhaustion(w: Seq<u8>, rolls: Seq<SpawnRoll>, s: Screen, wave: int)
    requires
        forall|k: int| 0 <= k < rolls.len() ==> roll_wf(#[trigger] rolls[k], s, wave, w.len() as int),
    ensures
        0 <= exhausted_count(w, rolls, s) <= roll_outcomes(w, rolls, s).len(),
        exhausted_count(w, rolls, s) == 0 ==> forall|i: int|
            0 <= i < roll_outcomes(w, rolls, s).len() ==> in_spawn_square(
                #[trigger] roll_outcomes(w, rolls, s)[i].1,
                s,
                wave,
            ),
    decreases rolls.len(),
{
    if rolls.len() > 0 {
        let pre = rolls.drop_last();
        assert forall|k: int| 0 <= k < pre.len() implies roll_wf(#[trigger] pre[k], s, wave, w.len() as int) by {
            assert(pre[k] == rolls[k]);
        }
        lemma_exhaustion(w, pre, s, wave);
        let r = rolls.last();
        assert(roll_wf(rolls[rolls.len() - 1], s, wave, w.len() as int));
        let c = r.candidates@;
        lemma_first_outside(c, s, 0);
        let outs = roll_outcomes(w, rolls, s);
        let po = roll_outcomes(w, pre, s);
        if roll_outcome(w, r, s) is Some && exhausted_count(w, rolls, s) == 0 {
            if inside_padded(c.last(), s) {
                assert forall|k: int| 0 <= k < c.len() implies inside_padded(#[trigger] c[k], s) by {
                    if k == c.len() - 1 {
                        assert(c[k] == c.last());
                    }
                }
                assert(exhausted(c, s));
            }
            assert(in_spawn_square(c[c.len() - 1], s, wave));
            assert forall|i: int| 0 <= i < outs.len() implies in_spawn_square(#[trigger] outs[i].1, s, wave) by {
                if i < po.len() {
                    assert(outs[i] == po[i]);
                }
            }
        }
    }
}

proof fn lemma_one_spawned(
    o: (usize, Point, i64),
    c: Character,
    i: int,
    et: Seq<CharacterInfo>,
    w: Seq<u8>,
    r1: Seq<Option<Point>>,
    first_slot: int,
    first: int,
    s: Screen,
    wave: int,
    now: u64,
)
    requires
        s.wf(),
        0 <= wave <= u32::MAX,
        outcome_ok(o, w, s, wave),
        c == hostile_from(o, et, first_slot + (i - first), now),
        0 <= first_slot + (i - first) < r1.len() <= usize::MAX,
        r1[first_slot + (i - first)] == Some(o.1),
        now <= u64::MAX - ANIMATION_START_OFFSET,
    ensures
        spawned_hostile(c, i, et, w, r1, first_slot, first, s, wave, now),
{
    if o.1 != fallback_position(s) {
        lemma_square_in_world(o.1, s, wave);
    }
}

proof fn lemma_wave_hostiles(
    e0: Seq<Character>,
    r0: Seq<Option<Point>>,
    e1: Seq<Character>,
    r1: Seq<Option<Point>>,
    w: Seq<u8>,
    et: Seq<CharacterInfo>,
    s: Screen,
    wave: int,
    now: u64,
    outs: Seq<(usize, Point, i64)>,
)
    requires
        s.wf(),
        0 <= wave <= u32::MAX,
        now <= u64::MAX - ANIMATION_START_OFFSET,
        r1.len() <= usize::MAX,
        forall|i: int| 0 <= i < outs.len() ==> outcome_ok(#[trigger] outs[i], w, s, wave),
        e1 == e0 + Seq::new(outs.len(), |i: int| hostile_from(outs[i], et, r0.len() + i, now)),
        r1 == r0 + Seq::new(outs.len(), |i: int| Some(outs[i].1)),
    ensures
        forall|i: int|
            e0.len() <= i < e1.len() ==> spawned_hostile(
                #[trigger] e1[i],
                i,
                et,
                w,
                r1,
                r0.len() as int,
                e0.len() as int,
                s,
                wave,
                now,
            ),
{
    assert forall|i: int| e0.len() <= i < e1.len() implies spawned_hostile(
        #[trigger] e1[i],
        i,
        et,
        w,
        r1,
        r0.len() as int,
        e0.len() as int,
        s,
        wave,
        now,
    ) by {
        let j = i - e0.len();
        assert(outcome_ok(outs[j], w, s, wave));
        lemma_one_spawned(outs[j], e1[i], i, et, w, r1, r0.len() as int, e0.len() as int, s, wave, now);
    }
}

proof fn lemma_wave_slots(
    e0: Seq<Character>,
    r0: Seq<Option<Point>>,
    e1: Seq<Character>,
    r1: Seq<Option<Point>>,
    et: Seq<CharacterInfo>,
    now: u64,
    outs: Seq<(usize, Point, i64)>,
)
    requires
        r1.len() <= usize::MAX,
        e1 == e0 + Seq::new(outs.len(), |i: int| hostile_from(outs[i], et, r0.len() + i, now)),
        r1 == r0 + Seq::new(outs.len(), |i: int| Some(outs[i].1)),
    ensures
        forall|k: int| r0.len() <= k < r1.len() ==> #[trigger] slot_held(r1, e1, e0.len() as int, k),
{
    assert forall|k: int| r0.len() <= k < r1.len() implies #[trigger] slot_held(r1, e1, e0.len() as int, k) by {
        let i = e0.len() + (k - r0.len());
        let j = k - r0.len();
        assert(e1[i] == hostile_from(outs[j], et, k, now));
        assert(r1[k] == Some(outs[j].1));
        assert(e1[i].position_index == k);
        assert(r1[k] == Some(e1[i].position));
    }
}

proof fn lemma_wave_spawned(
    e0: Seq<Character>,
    r0: Seq<Option<Point>>,
    e1: Seq<Character>,
    r1: Seq<Option<Point>>,
    w: Seq<u8>,
    et: Seq<CharacterInfo>,
    s: Screen,
    wave: int,
    now: u64,
    outs: Seq<(usize, Point, i64)>,
    count: int,
)
    requires
        s.wf(),
        0 <= wave <= u32::MAX,
        now <= u64::MAX - ANIMATION_START_OFFSET,
        r1.len() <= usize::MAX,
        outs.len() <= count,
        (exists|j: int| 0 <= j < w.len() && selects(w[j] as int, 1)) ==> outs.len() == count,
        forall|i: int| 0 <= i < outs.len() ==> outcome_ok(#[trigger] outs[i], w, s, wave),
        e1 == e0 + Seq::new(outs.len(), |i: int| hostile_from(outs[i], et, r0.len() + i, now)),
        r1 == r0 + Seq::new(outs.len(), |i: int| Some(outs[i].1)),
    ensures
        wave_spawned(e0, r0, e1, r1, w, et, s, wave, now, count),
{
    assert(e1.subrange(0, e0.len() as int) =~= e0);
    assert(r1.subrange(0, r0.len() as int) =~= r0);
    lemma_wave_hostiles(e0, r0, e1, r1, w, et, s, wave, now, outs);
    lemma_wave_slots(e0, r0, e1, r1, et, now, outs);
}

/// The ally types, among the first `n`, that a balance `bal` of currency
/// `cur` buys when each is tried once in order, and what is left.
pub open spec fn buys(bal: int, types: Seq<CharacterInfo>, cur: int, n: int) -> (Seq<usize>, int)
    decreases n,
{
    if n <= 0 {
        (Seq::empty(), bal)
    } else {
        let (bought, left) = buys(bal, types, cur, n - 1);
        let t = types[n - 1];
        if t.collectible_type_required == Some(cur as usize)
            && t.collectible_ammount_required is Some
            && left >= t.collectible_ammount_required->Some_0 as int {
            (bought.push((n - 1) as usize), left - t.collectible_ammount_required->Some_0 as int)
        } else {
            (bought, left)
        }
    }
}

/// The ally types bought from the first `m` currency balances of `h`, in order.
pub open spec fn bought(h: Seq<i32>, types: Seq<CharacterInfo>, m: int) -> Seq<usize>
    decreases m,
{
    if m <= 0 {
        Seq::empty()
    } else {
        bought(h, types, m - 1) + buys(h[m - 1] as int, types, m - 1, types.len() as int).0
    }
}

proof fn lemma_buys_bounded(bal: int, types: Seq<CharacterInfo>, cur: int, n: int)
    requires
        table_wf(types),
        bal >= 0,
        n <= types.len(),
    ensures
        0 <= buys(bal, types, cur, n).1 <= bal,
        buys(bal, types, cur, n).0.len() <= if n < 0 { 0 } else { n },
    decreases n,
{
    if n > 0 {
        lemma_buys_bounded(bal, types, cur, n - 1);
    }
}

/// What holds of each ally that a purchase added at index `i`.
pub open spec fn spawned_ally(
    c: Character,
    i: int,
    types: Seq<CharacterInfo>,
    slots: Seq<Option<Point>>,
    first_slot: int,
    first: int,
    s: Screen,
    now: u64,
) -> bool {
    &&& 0 <= c.type_index < types.len()
    &&& fresh(c, c.type_index, types[c.type_index as int], c.position, (first_slot + (i - first)) as usize, now)
    &&& c.summon
    &&& c.last_shot == Some(now)
    &&& slots[c.position_index as int] == Some(c.position)
    &&& 0 <= c.position.x < s.width && 0 <= c.position.y < s.height
}

/// The allies `s1`, registry `r1` and holdings `h1` are what buying with
/// holdings `h0` makes of `s0` and `r0`: each balance is spent as `buys`
/// gives, the bought allies are appended in order, each fresh on the screen
/// in its own new slot.
pub open spec fn allies_bought(
    h0: Seq<i32>,
    h1: Seq<i32>,
    s0: Seq<Character>,
    s1: Seq<Character>,
    r0: Seq<Option<Point>>,
    r1: Seq<Option<Point>>,
    st: Seq<CharacterInfo>,
    s: Screen,
    now: u64,
) -> bool {
    &&& h1.len() == h0.len()
    &&& forall|t: int| 0 <= t < h0.len() ==> #[trigger] h1[t] == buys(h0[t] as int, st, t, st.len() as int).1
    &&& s1.len() == s0.len() + bought(h0, st, h0.len() as int).len()
    &&& s1.subrange(0, s0.len() as int) == s0
    &&& r1.len() - r0.len() == s1.len() - s0.len()
    &&& r1.subrange(0, r0.len() as int) == r0
    &&& forall|i: int|
        0 <= i < s1.len() - s0.len() ==> s1[s0.len() + i].type_index == #[trigger] bought(
            h0,
            st,
            h0.len() as int,
        )[i]
    &&& forall|i: int|
        s0.len() <= i < s1.len() ==> spawned_ally(
            #[trigger] s1[i],
            i,
            st,
            r1,
            r0.len() as int,
            s0.len() as int,
            s,
            now,
        )
    &&& forall|k: int| r0.len() <= k < r1.len() ==> #[trigger] slot_held(r1, s1, s0.len() as int, k)
}

/// Buys allies with the currency holdings: for each currency type in turn,
/// each ally type that costs it, tried once in order, is bought when the
/// balance covers its cost. Each bought ally spawns at a random point of the
/// screen. Holdings must not be negative.
pub fn spawn_summons(
    holdings: &mut Vec<i32>,
    summon_types: &SummonTypes,
    screen: &Screen,
    summon_positions: &mut PositionRegistry,
    summons: &mut Vec<Character>,
    now: u64,
)
    requires
        table_wf(summon_types.0@),
        forall|t: int| 0 <= t < old(holdings)@.len() ==> old(holdings)@[t] >= 0,
        screen.wf(),
        now <= u64::MAX - ANIMATION_START_OFFSET,
        old(summon_positions).0@.len() + old(holdings)@.len() * summon_types.0@.len() < usize::MAX,
        old(summons)@.len() + old(holdings)@.len() * summon_types.0@.len() < usize::MAX,
    ensures
        allies_bought(
            old(holdings)@,
            final(holdings)@,
            old(summons)@,
            final(summons)@,
            old(summon_positions).0@,
            final(summon_positions).0@,
            summon_types.0@,
            *screen,
            now,
        ),
        final(holdings)@.len() == old(holdings)@.len(),
        forall|t: int|
            0 <= t < old(holdings)@.len() ==> #[trigger] final(holdings)@[t] == buys(
                old(holdings)@[t] as int,
                summon_types.0@,
                t,
                summon_types.0@.len() as int,
            ).1,
        final(summons)@.len() == old(summons)@.len() + bought(
            old(holdings)@,
            summon_types.0@,
            old(holdings)@.len() as int,
        ).len(),
        final(summons)@.subrange(0, old(summons)@.len() as int) == old(summons)@,
        final(summons)@.len() <= old(summons)@.len() + old(holdings)@.len() * summon_types.0@.len(),
        final(summon_positions).0@ .len() - old(summon_positions).0@.len() == final(summons)@.len()
            - old(summons)@.len(),
        final(summon_positions).0@.subrange(0, old(summon_positions).0@.len() as int) == old(
            summon_positions,
        ).0@,
        forall|i: int|
            0 <= i < final(summons)@.len() - old(summons)@.len() ==> final(summons)@[old(
                summons,
            )@.len() + i].type_index == #[trigger] bought(
                old(holdings)@,
                summon_types.0@,
                old(holdings)@.len() as int,
            )[i],
        forall|t: int| 0 <= t < final(holdings)@.len() ==> #[trigger] final(holdings)@[t] >= 0,
        forall|k: int|
            old(summon_positions).0@.len() <= k < final(summon_positions).0@.len() ==> #[trigger] slot_held(
                final(summon_positions).0@,
                final(summons)@,
                old(summons)@.len() as int,
                k,
            ),
        forall|i: int|
            old(summons)@.len() <= i < final(summons)@.len() ==> spawned_ally(
                #[trigger] final(summons)@[i],
                i,
                summon_types.0@,
                final(summon_positions).0@,
                old(summon_positions).0@.len() as int,
                old(summons)@.len() as int,
                *screen,
                now,
            ),
{
    let ghost h0 = holdings@;
    let ghost s0 = summons@;
    let ghost r0 = summon_positions.0@;
    let ghost st = summon_types.0@;
    let n_c = holdings.len();
    let n_t = summon_types.0.len();
    let mut i: usize = 0;
    while i < n_c
        invariant
            i <= n_c == h0.len() == holdings@.len(),
            n_t == st.len(),
            st == summon_types.0@,
            table_wf(st),
            forall|t: int| 0 <= t < h0.len() ==> h0[t] >= 0,
            screen.wf(),
            now <= u64::MAX - ANIMATION_START_OFFSET,
            r0.len() + n_c * n_t < usize::MAX,
            s0.len() + n_c * n_t < usize::MAX,
            forall|t: int| 0 <= t < i ==> #[trigger] holdings@[t] == buys(h0[t] as int, st, t, n_t as int).1,
            forall|t: int| i <= t < n_c ==> #[trigger] holdings@[t] == h0[t],
            summons@.len() == s0.len() + bought(h0, st, i as int).len(),
            bought(h0, st, i as int).len() <= i * n_t,
            summons@.subrange(0, s0.len() as int) == s0,
            summon_positions.0@.len() - r0.len() == summons@.len() - s0.len(),
            summon_positions.0@.subrange(0, r0.len() as int) == r0,
            forall|k: int|
                0 <= k < summons@.len() - s0.len() ==> summons@[s0.len() + k].type_index
                    == #[trigger] bought(h0, st, i as int)[k],
            forall|k: int|
                s0.len() <= k < summons@.len() ==> spawned_ally(
                    #[trigger] summons@[k],
                    k,
                    st,
                    summon_positions.0@,
                    r0.len() as int,
                    s0.len() as int,
                    *screen,
                    now,
                ),
        decreases n_c - i,
    {
        let ghost base = bought(h0, st, i as int);
        let mut j: usize = 0;
        proof {
            assert(base + buys(h0[i as int] as int, st, i as int, 0).0 =~= base);
            assert(i * n_t + n_t == (i + 1) * n_t) by (nonlinear_arith);
            assert((i + 1) * n_t <= n_c * n_t) by (nonlinear_arith)
                requires
                    i + 1 <= n_c,
            ;
        }
        while j < n_t
            invariant
                i < n_c == h0.len() == holdings@.len(),
                j <= n_t == st.len(),
                st == summon_types.0@,
                table_wf(st),
                forall|t: int| 0 <= t < h0.len() ==> h0[t] >= 0,
                screen.wf(),
                now <= u64::MAX - ANIMATION_START_OFFSET,
                r0.len() + (i + 1) * n_t < usize::MAX,
                s0.len() + (i + 1) * n_t < usize::MAX,
                base == bought(h0, st, i as int),
                base.len() <= i * n_t,
                forall|t: int| 0 <= t < i ==> #[trigger] holdings@[t] == buys(h0[t] as int, st, t, n_t as int).1,
                forall|t: int| i < t < n_c ==> #[trigger] holdings@[t] == h0[t],
                holdings@[i as int] == buys(h0[i as int] as int, st, i as int, j as int).1,
                summons@.len() == s0.len() + base.len() + buys(h0[i as int] as int, st, i as int, j as int).0.len(),
                summons@.subrange(0, s0.len() as int) == s0,
                summon_positions.0@.len() - r0.len() == summons@.len() - s0.len(),
                summon_positions.0@.subrange(0, r0.len() as int) == r0,
                forall|k: int|
                    0 <= k < summons@.len() - s0.len() ==> summons@[s0.len() + k].type_index
                        == #[trigger] (base + buys(h0[i as int] as int, st, i as int, j as int).0)[k],
                forall|k: int|
                    s0.len() <= k < summons@.len() ==> spawned_ally(
                        #[trigger] summons@[k],
                        k,
                        st,
                        summon_positions.0@,
                        r0.len() as int,
                        s0.len() as int,
                        *screen,
                        now,
                    ),
            decreases n_t - j,
        {
            let ghost bal = h0[i as int] as int;
            let ghost prev = buys(bal, st, i as int, j as int);
            proof {
                lemma_buys_bounded(bal, st, i as int, j as int);
                assert(st[j as int].wf());
                assert(i * n_t + j < (i + 1) * n_t) by (nonlinear_arith)
                    requires
                        j < n_t,
                ;
            }
            let info = &summon_types.0[j];
            match (info.collectible_type_required, info.collectible_ammount_required) {
                (Some(c), Some(a)) => {
                    if c == i && holdings[i] >= a {
                        let v = holdings[i];
                        holdings.set(i, v - a);
                        let x = random_range(0, screen.width);
                        let y = random_range(0, screen.height);
                        let ghost before = summons@;
                        let ghost slots_before = summon_positions.0@;
                        spawn_character(summons, summon_positions, j, info, Point { x, y }, true, now);
                        proof {
                            let seqb = base + prev.0;
                            let seqa = base + prev.0.push(j);
                            assert(seqa =~= seqb.push(j));
                            assert forall|k: int|
                                s0.len() <= k < summons@.len() implies spawned_ally(
                                    #[trigger] summons@[k],
                                    k,
                                    st,
                                    summon_positions.0@,
                                    r0.len() as int,
                                    s0.len() as int,
                                    *screen,
                                    now,
                                ) by {
                                if k < before.len() {
                                    assert(summons@[k] == before[k]);
                                    assert(summon_positions.0@[before[k].position_index as int]
                                        == slots_before[before[k].position_index as int]);
                                } else {
                                    assert(summons@[k] == summons@.last());
                                    assert(summon_positions.0@[slots_before.len() as int] == Some(Point { x, y }));
                                }
                            }
                            assert forall|k: int|
                                0 <= k < summons@.len() - s0.len() implies summons@[s0.len() + k].type_index
                                    == #[trigger] seqa[k] by {
                                if k < seqb.len() {
                                    assert(summons@[s0.len() + k] == before[s0.len() + k]);
                                }
                            }
                            assert(summons@.subrange(0, s0.len() as int) =~= before.subrange(0, s0.len() as int));
                            assert(summon_positions.0@.subrange(0, r0.len() as int) =~= slots_before.subrange(0, r0.len() as int));
                        }
                    }
                },
                _ => {},
            }
            j += 1;
        }
        proof {
            assert(bought(h0, st, i as int + 1) == base + buys(h0[i as int] as int, st, i as int, n_t as int).0);
            lemma_buys_bounded(h0[i as int] as int, st, i as int, n_t as int);
            assert(i * n_t + n_t == (i + 1) * n_t) by (nonlinear_arith);
        }
        i += 1;
    }
    proof {
        assert forall|t: int| 0 <= t < holdings@.len() implies #[trigger] holdings@[t] >= 0 by {
            lemma_buys_bounded(h0[t] as int, st, t, n_t as int);
        }
        assert forall|k: int|
            r0.len() <= k < summon_positions.0@.len() implies #[trigger] slot_held(
                summon_positions.0@,
                summons@,
                s0.len() as int,
                k,
            ) by {
            let i = s0.len() + (k - r0.len());
            assert(spawned_ally(
                summons@[i],
                i,
                st,
                summon_positions.0@,
                r0.len() as int,
                s0.len() as int,
                *screen,
                now,
            ));
        }
    }
}

} // verus!
