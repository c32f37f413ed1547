use vstd::prelude::*;
use crate::hitboxes::{Point, WORLD_LIMIT};
use crate::characters::{Character, SPEED_LIMIT};
use crate::registry::PositionRegistry;

verus! {

/// Longest frame, in milliseconds, that one tick may advance.
pub const DELTA_LIMIT: u64 = 1_000_000;

/// Largest width or height of the screen.
pub const SCREEN_LIMIT: i64 = 0x100_0000_0000;

/// The visible rectangle, from the origin to `(width, height)`.
#[derive(Clone, Copy, Debug, PartialEq, Eq, Structural)]
pub struct Screen {
    pub width: i64,
    pub height: i64,
}

impl Screen {
    pub open spec fn wf(self) -> bool {
        0 < self.width <= SCREEN_LIMIT && 0 < self.height <= SCREEN_LIMIT
    }
}

/// Strictly inside the screen rectangle.
pub open spec fn on_screen(p: Point, s: Screen) -> bool {
    0 < p.x < s.width && 0 < p.y < s.height
}

/// Division that rounds toward zero, as integer division does in Rust.
pub open spec fn trunc_div(v: int, d: int) -> int {
    if v >= 0 {
        v / d
    } else {
        -((-v) / d)
    }
}

/// Distance covered in `dt` milliseconds at `speed` world units per second
/// along a direction component `dir` given in thousandths, in thousandths of
/// a world unit.
pub open spec fn step_of(dir: int, speed: int, dt: int) -> int {
    trunc_div(dir * speed * dt, 1000)
}

/// `p` moved along `dir` at `speed` for `dt` milliseconds.
pub open spec fn advanced(p: Point, dir: Point, speed: int, dt: int) -> (int, int) {
    (p.x + step_of(dir.x as int, speed, dt), p.y + step_of(dir.y as int, speed, dt))
}

/// A direction: each component at most one thousand in absolute value.
pub open spec fn is_direction(d: Point) -> bool {
    -1000 <= d.x <= 1000 && -1000 <= d.y <= 1000
}

/// Returns `a - b`.
pub fn vector_subtract(a: &Point, b: &Point) -> (r: Point)
    requires
        a.in_world(),
        b.in_world(),
    ensures
        r.x == a.x - b.x,
        r.y == a.y - b.y,
{
    Point { x: a.x - b.x, y: a.y - b.y }
}

/// Returns the componentwise product of `a` and `b`.
pub fn vector_multiply(a: &Point, b: &Point) -> (r: Point)
    requires
        i64::MIN <= a.x * b.x <= i64::MAX,
        i64::MIN <= a.y * b.y <= i64::MAX,
    ensures
        r.x == a.x * b.x,
        r.y == a.y * b.y,
{
    Point { x: a.x * b.x, y: a.y * b.y }
}

/// Returns true when `position` lies strictly inside the screen.
pub fn is_on_screen(position: &Point, screen: &Screen) -> (r: bool)
    ensures
        r == on_screen(*position, *screen),
{
    position.x > 0 && position.x < screen.width && position.y > 0 && position.y < screen.height
}

/// The displacement along one axis for a direction component `dir`.
pub fn step(dir: i64, speed: i64, dt: u64) -> (r: i64)
    requires
        -1000 <= dir <= 1000,
        0 <= speed <= crate::characters::SPEED_LIMIT,
        dt <= DELTA_LIMIT,
    ensures
        r == step_of(dir as int, speed as int, dt as int),
        -0x100_0000_0000 <= r <= 0x100_0000_0000,
{
    assert(-1_000_000_000 <= dir * speed <= 1_000_000_000) by (nonlinear_arith)
        requires
            -1000 <= dir <= 1000,
            0 <= speed <= 1_000_000,
    ;
    let ds: i128 = (dir as i128) * (speed as i128);
    assert(-1_000_000_000_000_000 <= ds * dt <= 1_000_000_000_000_000) by (nonlinear_arith)
        requires
            -1_000_000_000 <= ds <= 1_000_000_000,
            0 <= dt <= 1_000_000,
    ;
    let v: i128 = ds * (dt as i128);
    if v >= 0 {
        (v / 1000) as i64
    } else {
        (-((-v) / 1000)) as i64
    }
}

/// Moves `position` along `dir` at `speed` for `dt` milliseconds.
pub fn advance(position: &Point, dir: &Point, speed: i64, dt: u64) -> (r: Point)
    requires
        position.in_world(),
        is_direction(*dir),
        0 <= speed <= crate::characters::SPEED_LIMIT,
        dt <= DELTA_LIMIT,
    ensures
        (r.x as int, r.y as int) == advanced(*position, *dir, speed as int, dt as int),
{
    let dx = step(dir.x, speed, dt);
    let dy = step(dir.y, speed, dt);
    Point { x: position.x + dx, y: position.y + dy }
}

/// Largest value whose integer square root `isqrt` computes.
pub const ROOT_LIMIT: u128 = 0x1_0000_0000_0000_0000_0000_0000_0000;

/// `r` is the square root of `n`, rounded down.
pub open spec fn is_root(r: int, n: int) -> bool {
    0 <= r && r * r <= n < (r + 1) * (r + 1)
}

/// The square root of `n`, rounded down.
pub open spec fn root(n: int) -> int {
    choose|r: int| is_root(r, n)
}

/// Squared length of `v`.
pub open spec fn norm2(v: Point) -> int {
    v.x * v.x + v.y * v.y
}

/// `v` scaled to length one thousand, each component rounded toward zero;
/// the zero vector stays zero.
pub open spec fn normalized(v: Point) -> Point {
    let len = root(norm2(v));
    if len == 0 {
        Point { x: 0, y: 0 }
    } else {
        Point { x: trunc_div(v.x * 1000, len) as i64, y: trunc_div(v.y * 1000, len) as i64 }
    }
}

proof fn lemma_root_unique(a: int, b: int, n: int)
    requires
        is_root(a, n),
        is_root(b, n),
    ensures
        a == b,
{
    if a < b {
        assert((a + 1) * (a + 1) <= b * b) by (nonlinear_arith)
            requires
                0 <= a + 1 <= b,
        ;
    } else if b < a {
        assert((b + 1) * (b + 1) <= a * a) by (nonlinear_arith)
            requires
                0 <= b + 1 <= a,
        ;
    }
}

/// The square root of `n`, rounded down.
pub fn isqrt(n: u128) -> (r: u64)
    requires
        n < ROOT_LIMIT,
    ensures
        is_root(r as int, n as int),
        r as int == root(n as int),
{
    let mut lo: u128 = 0;
    let mut hi: u128 = 0x100_0000_0000_0000;
    assert(hi * hi == ROOT_LIMIT);
    while hi - lo > 1
        invariant
            lo < hi <= 0x100_0000_0000_0000,
            lo * lo <= n < hi * hi,
        decreases hi - lo,
    {
        let mid = lo + (hi - lo) / 2;
        assert(mid * mid <= 0x100_0000_0000_0000 * 0x100_0000_0000_0000) by (nonlinear_arith)
            requires
                mid <= 0x100_0000_0000_0000,
        ;
        if mid * mid <= n {
            lo = mid;
        } else {
            hi = mid;
        }
    }
    proof {
        assert(hi == lo + 1);
        lemma_root_unique(lo as int, root(n as int), n as int);
    }
    lo as u64
}

pub proof fn lemma_component_le_root(c: int, other: int, len: int)
    requires
        is_root(len, c * c + other * other),
    ensures
        -len <= c <= len,
{
    assert(c * c <= c * c + other * other) by (nonlinear_arith);
    if c > len {
        assert((len + 1) * (len + 1) <= c * c) by (nonlinear_arith)
            requires
                0 <= len + 1 <= c,
        ;
    } else if c < -len {
        assert((len + 1) * (len + 1) <= c * c) by (nonlinear_arith)
            requires
                0 <= len + 1 <= -c,
        ;
    }
}

/// Scales `v` to length one thousand, rounding each component toward zero;
/// the zero vector stays zero.
pub fn normalize(v: &Point) -> (r: Point)
    requires
        -0x10_0000_0000_0000 <= v.x <= 0x10_0000_0000_0000,
        -0x10_0000_0000_0000 <= v.y <= 0x10_0000_0000_0000,
    ensures
        r == normalized(*v),
        is_direction(r),
{
    let x = v.x as i128;
    let y = v.y as i128;
    assert(x * x <= 0x100_0000_0000_0000_0000_0000_0000 && y * y <= 0x100_0000_0000_0000_0000_0000_0000)
        by (nonlinear_arith)
        requires
            -0x10_0000_0000_0000 <= x <= 0x10_0000_0000_0000,
            -0x10_0000_0000_0000 <= y <= 0x10_0000_0000_0000,
    ;
    assert(x * x >= 0 && y * y >= 0) by (nonlinear_arith);
    let n = (x * x + y * y) as u128;
    let len = isqrt(n) as i128;
    if len == 0 {
        return Point { x: 0, y: 0 };
    }
    proof {
        lemma_component_le_root(x as int, y as int, len as int);
        lemma_component_le_root(y as int, x as int, len as int);
    }
    let rx = div_toward_zero(x * 1000, len);
    let ry = div_toward_zero(y * 1000, len);
    proof {
        lemma_scaled_component(x as int, len as int);
        lemma_scaled_component(y as int, len as int);
    }
    Point { x: rx as i64, y: ry as i64 }
}

proof fn lemma_scaled_component(c: int, len: int)
    requires
        0 < len,
        -len <= c <= len,
    ensures
        -1000 <= trunc_div(c * 1000, len) <= 1000,
{
    if c >= 0 {
        assert(c * 1000 <= len * 1000) by (nonlinear_arith)
            requires
                c <= len,
        ;
        vstd::arithmetic::div_mod::lemma_div_is_ordered(c * 1000, len * 1000, len);
        vstd::arithmetic::div_mod::lemma_div_multiples_vanish(1000, len);
        assert(c * 1000 >= 0) by (nonlinear_arith)
            requires
                c >= 0,
        ;
    } else {
        assert(-(c * 1000) <= len * 1000) by (nonlinear_arith)
            requires
                -c <= len,
        ;
        vstd::arithmetic::div_mod::lemma_div_is_ordered(-(c * 1000), len * 1000, len);
        vstd::arithmetic::div_mod::lemma_div_multiples_vanish(1000, len);
    }
}

/// `v / d` rounded toward zero.
pub fn div_toward_zero(v: i128, d: i128) -> (r: i128)
    requires
        d > 0,
        v > i128::MIN,
    ensures
        r == trunc_div(v as int, d as int),
{
    if v >= 0 {
        v / d
    } else {
        -((-v) / d)
    }
}

/// `v` held within the world bounds.
pub open spec fn clamp_world(v: int) -> int {
    if v < -WORLD_LIMIT {
        -WORLD_LIMIT as int
    } else if v > WORLD_LIMIT {
        WORLD_LIMIT as int
    } else {
        v
    }
}

/// `a - b` as a point.
pub open spec fn diff(a: Point, b: Point) -> Point {
    Point { x: (a.x - b.x) as i64, y: (a.y - b.y) as i64 }
}

/// Most slots that a registry may hold for separation steering. It bounds
/// the arithmetic of steering, and so a wave spawns at most this many
/// hostiles: from nine hostiles growing by 1.2 per wave, the target reaches
/// it near wave 64, and later waves spawn this many.
pub const SLOT_LIMIT: usize = 0x10_0000;

/// Largest separation radius.
pub const RADIUS_LIMIT: i64 = 0x10_0000;

/// The state of separation steering after the first `n` slots: the
/// position, the summed repulsion, the last overlap and whether the
/// position has been pushed.
pub open spec fn avoided(
    slots: Seq<Option<Point>>,
    n: int,
    start: Point,
    index: int,
    radius: int,
    dt: int,
) -> (Point, int, int, int, bool)
    decreases n,
{
    if n <= 0 {
        (start, 0, 0, 0, false)
    } else {
        let (pos, ax, ay, overlap, changed) = avoided(slots, n - 1, start, index, radius, dt);
        match slots[n - 1] {
            Some(other) if n - 1 != index => {
                let d = diff(pos, other);
                let len = root(norm2(d));
                let near = len < 2 * radius;
                let ax2 = if near { ax + d.x } else { ax };
                let ay2 = if near { ay + d.y } else { ay };
                let overlap2 = if near { 2 * radius - len } else { overlap };
                let moved = Point {
                    x: clamp_world(pos.x + trunc_div(ax2 * overlap2 * dt, 1_000_000)) as i64,
                    y: clamp_world(pos.y + trunc_div(ay2 * overlap2 * dt, 1_000_000)) as i64,
                };
                (moved, ax2, ay2, overlap2, changed || ((ax2 != 0 || ay2 != 0) && overlap2 != 0))
            },
            _ => (pos, ax, ay, overlap, changed),
        }
    }
}

/// Every live slot holds a position in the world.
pub open spec fn slots_in_world(slots: Seq<Option<Point>>) -> bool {
    forall|i: int| 0 <= i < slots.len() ==> (#[trigger] slots[i] matches Some(p) ==> p.in_world())
}

/// `v` held within the world bounds.
pub fn clamp_to_world(v: i128) -> (r: i64)
    ensures
        r == clamp_world(v as int),
{
    if v < -(WORLD_LIMIT as i128) {
        -WORLD_LIMIT
    } else if v > WORLD_LIMIT as i128 {
        WORLD_LIMIT
    } else {
        v as i64
    }
}

/// Pushes `position` away from every other live slot closer than twice
/// `avoid_radius`, slot by slot: each close slot adds the offset from it to
/// a running repulsion and sets the overlap, and after each live slot the
/// position moves by repulsion times overlap over the elapsed time. The
/// slot `positions_index` is the character's own and is skipped. Returns
/// whether the position was pushed.
pub fn avoid_positions(
    position: &mut Point,
    positions: &Vec<Option<Point>>,
    positions_index: usize,
    avoid_radius: i64,
    delta: u64,
) -> (r: bool)
    requires
        old(position).in_world(),
        slots_in_world(positions@),
        positions@.len() <= SLOT_LIMIT,
        0 <= avoid_radius <= RADIUS_LIMIT,
        delta <= DELTA_LIMIT,
    ensures
        ({
            let (p, _, _, _, changed) = avoided(
                positions@,
                positions@.len() as int,
                *old(position),
                positions_index as int,
                avoid_radius as int,
                delta as int,
            );
            *final(position) == p && r == changed
        }),
        final(position).in_world(),
{
    let ghost slots = positions@;
    let ghost start = *position;
    let two_r: i128 = 2 * avoid_radius as i128;
    let mut ax: i128 = 0;
    let mut ay: i128 = 0;
    let mut overlap: i128 = 0;
    let mut changed = false;
    let mut i: usize = 0;
    while i < positions.len()
        invariant
            i <= slots.len() <= SLOT_LIMIT,
            slots == positions@,
            slots_in_world(slots),
            0 <= avoid_radius <= RADIUS_LIMIT,
            two_r == 2 * avoid_radius,
            delta <= DELTA_LIMIT,
            position.in_world(),
            (*position, ax as int, ay as int, overlap as int, changed) == avoided(
                slots,
                i as int,
                start,
                positions_index as int,
                avoid_radius as int,
                delta as int,
            ),
            -(i * two_r) <= ax <= i * two_r,
            -(i * two_r) <= ay <= i * two_r,
            0 <= overlap <= two_r,
        decreases slots.len() - i,
    {
        proof {
            assert(i * two_r + two_r == (i + 1) * two_r) by (nonlinear_arith);
            assert((i + 1) * two_r <= 0x10_0000 * 0x20_0000) by (nonlinear_arith)
                requires
                    i + 1 <= 0x10_0000,
                    0 <= two_r <= 0x20_0000,
            ;
        }
        match positions[i] {
            Some(other) => {
                if i != positions_index {
                    assert(slots[i as int] matches Some(q) ==> q.in_world());
                    let d = vector_subtract(position, &other);
                    let dx = d.x as i128;
                    let dy = d.y as i128;
                    proof {
                        lemma_square_bound(dx as int);
                        lemma_square_bound(dy as int);
                    }
                    let len = isqrt((dx * dx + dy * dy) as u128) as i128;
                    if len < two_r {
                        proof {
                            lemma_component_le_root(dx as int, dy as int, len as int);
                            lemma_component_le_root(dy as int, dx as int, len as int);
                        }
                        ax = ax + dx;
                        ay = ay + dy;
                        overlap = two_r - len;
                    }
                    let dt = delta as i128;
                    proof {
                        lemma_push_bound(ax as int, overlap as int, dt as int);
                        lemma_push_bound(ay as int, overlap as int, dt as int);
                    }
                    let px = div_toward_zero(ax * overlap * dt, 1_000_000);
                    let py = div_toward_zero(ay * overlap * dt, 1_000_000);
                    proof {
                        lemma_trunc_div_bound(ax * overlap * dt, 1_000_000);
                        lemma_trunc_div_bound(ay * overlap * dt, 1_000_000);
                    }
                    *position = Point {
                        x: clamp_to_world(position.x as i128 + px),
                        y: clamp_to_world(position.y as i128 + py),
                    };
                    if !changed {
                        changed = (ax != 0 || ay != 0) && overlap != 0;
                    }
                }
            },
            None => {},
        }
        i += 1;
    }
    changed
}

pub proof fn lemma_square_bound(v: int)
    requires
        -0x8_0000_0000_0000 <= v <= 0x8_0000_0000_0000,
    ensures
        0 <= v * v <= 0x40_0000_0000_0000_0000_0000_0000,
{
    assert(0 <= v * v <= 0x8_0000_0000_0000 * 0x8_0000_0000_0000) by (nonlinear_arith)
        requires
            -0x8_0000_0000_0000 <= v <= 0x8_0000_0000_0000,
    ;
}

proof fn lemma_push_bound(a: int, o: int, dt: int)
    requires
        -0x200_0000_0000 <= a <= 0x200_0000_0000,
        0 <= o <= 0x20_0000,
        0 <= dt <= DELTA_LIMIT,
    ensures
        -0x4000_0000_0000_0000 <= a * o <= 0x4000_0000_0000_0000,
        -0x4_0000_0000_0000_0000_0000 <= a * o * dt <= 0x4_0000_0000_0000_0000_0000,
{
    assert(-0x200_0000_0000 * 0x20_0000 <= a * o <= 0x200_0000_0000 * 0x20_0000) by (nonlinear_arith)
        requires
            -0x200_0000_0000 <= a <= 0x200_0000_0000,
            0 <= o <= 0x20_0000,
    ;
    assert(-0x4000_0000_0000_0000 * 0x10_0000 <= (a * o) * dt <= 0x4000_0000_0000_0000 * 0x10_0000)
        by (nonlinear_arith)
        requires
            -0x4000_0000_0000_0000 <= a * o <= 0x4000_0000_0000_0000,
            0 <= dt <= 0x10_0000,
    ;
}

proof fn lemma_trunc_div_bound(v: int, d: int)
    requires
        d > 0,
    ensures
        v >= 0 ==> 0 <= trunc_div(v, d) <= v,
        v < 0 ==> v <= trunc_div(v, d) <= 0,
{
    if v >= 0 {
        vstd::arithmetic::div_mod::lemma_div_pos_is_pos(v, d);
        vstd::arithmetic::div_mod::lemma_div_is_ordered_by_denominator(v, 1, d);
    } else {
        vstd::arithmetic::div_mod::lemma_div_pos_is_pos(-v, d);
        vstd::arithmetic::div_mod::lemma_div_is_ordered_by_denominator(-v, 1, d);
    }
}

/// Where a moving character heads after separation.
#[derive(Clone, Copy, Debug, PartialEq, Eq, Structural)]
pub enum Heading {
    /// Straight at a point.
    Towards(Point),
    /// At a point while it is farther than the cursor dead zone, else nowhere.
    Cursor(Point),
    /// Along the character's previous direction.
    Keep,
}

/// Distance from the cursor, in thousandths of a world unit, within which
/// an ally stops.
pub const CURSOR_DEAD_ZONE: i64 = 32_000;

/// The direction for `heading` from `pos`, given the previous direction.
pub open spec fn heading_of(heading: Heading, pos: Point, previous: Point) -> Point {
    match heading {
        Heading::Towards(t) => normalized(diff(t, pos)),
        Heading::Cursor(t) => if norm2(diff(t, pos)) > CURSOR_DEAD_ZONE * CURSOR_DEAD_ZONE {
            normalized(diff(t, pos))
        } else {
            Point { x: 0, y: 0 }
        },
        Heading::Keep => previous,
    }
}

/// The target of `heading` lies in the world.
pub open spec fn heading_wf(heading: Heading) -> bool {
    match heading {
        Heading::Towards(t) => t.in_world(),
        Heading::Cursor(t) => t.in_world(),
        Heading::Keep => true,
    }
}

/// `c` after separation from the other slots and a move along `heading`.
pub open spec fn moved_character(
    c: Character,
    slots: Seq<Option<Point>>,
    radius: int,
    heading: Heading,
    speed: int,
    dt: int,
) -> Character {
    let pushed = avoided(slots, slots.len() as int, c.position, c.position_index as int, radius, dt).0;
    let dir = heading_of(heading, pushed, c.direction_vector);
    let (x, y) = advanced(pushed, dir, speed, dt);
    Character {
        position: Point { x: clamp_world(x) as i64, y: clamp_world(y) as i64 },
        direction_vector: dir,
        ..c
    }
}

/// `slots` with `slot` set to `p`, unless that slot is empty.
pub open spec fn written(slots: Seq<Option<Point>>, slot: int, p: Point) -> Seq<Option<Point>> {
    if slots[slot] is Some {
        slots.update(slot, Some(p))
    } else {
        slots
    }
}

/// A character that steering can move: in the world, with a direction and a
/// slot of the registry.
pub open spec fn movable(c: Character, slots: Seq<Option<Point>>) -> bool {
    c.position.in_world() && is_direction(c.direction_vector) && c.position_index < slots.len()
}

/// Moves one character: separation from the other live slots, then a step
/// along `heading` at `speed`; its slot, if live, follows it.
pub fn move_character(
    character: &mut Character,
    positions: &mut PositionRegistry,
    radius: i64,
    heading: Heading,
    speed: i64,
    delta: u64,
)
    requires
        movable(*old(character), old(positions).0@),
        slots_in_world(old(positions).0@),
        old(positions).0@.len() <= SLOT_LIMIT,
        0 <= radius <= RADIUS_LIMIT,
        heading_wf(heading),
        0 <= speed <= SPEED_LIMIT,
        delta <= DELTA_LIMIT,
    ensures
        *final(character) == moved_character(
            *old(character),
            old(positions).0@,
            radius as int,
            heading,
            speed as int,
            delta as int,
        ),
        final(positions).0@ == written(
            old(positions).0@,
            old(character).position_index as int,
            final(character).position,
        ),
        movable(*final(character), final(positions).0@),
        slots_in_world(final(positions).0@),
{
    let mut pos = character.position;
    avoid_positions(&mut pos, &positions.0, character.position_index, radius, delta);
    let dir = match heading {
        Heading::Towards(t) => normalize(&vector_subtract(&t, &pos)),
        Heading::Cursor(t) => {
            let d = vector_subtract(&t, &pos);
            let dx = d.x as i128;
            let dy = d.y as i128;
            proof {
                lemma_square_bound(dx as int);
                lemma_square_bound(dy as int);
            }
            if dx * dx + dy * dy > CURSOR_DEAD_ZONE as i128 * CURSOR_DEAD_ZONE as i128 {
                normalize(&d)
            } else {
                Point { x: 0, y: 0 }
            }
        },
        Heading::Keep => character.direction_vector,
    };
    let next = advance(&pos, &dir, speed, delta);
    let p = Point { x: clamp_to_world(next.x as i128), y: clamp_to_world(next.y as i128) };
    character.direction_vector = dir;
    character.position = p;
    positions.write(character.position_index, p);
    proof {
        let slots = positions.0@;
        assert forall|i: int| 0 <= i < slots.len() implies (#[trigger] slots[i] matches Some(q)
            ==> q.in_world()) by {
            if i != character.position_index {
                assert(slots[i] == old(positions).0@[i]);
            }
        }
    }
}

} // verus!
