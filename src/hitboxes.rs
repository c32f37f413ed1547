use vstd::prelude::*;

verus! {

/// Largest absolute coordinate that a position in the world may hold.
pub const WORLD_LIMIT: i64 = 0x4_0000_0000_0000;

/// A point or a vector in the plane, in thousandths of a world unit.
#[derive(Clone, Copy, Debug, PartialEq, Eq, Structural)]
pub struct Point {
    pub x: i64,
    pub y: i64,
}

/// The width and height of an axis-aligned hitbox centred on a position.
#[derive(Clone, Copy, Debug, PartialEq, Eq, Structural)]
pub struct Hitbox {
    pub width: i64,
    pub height: i64,
}

impl Point {
    pub open spec fn in_world(self) -> bool {
        -WORLD_LIMIT <= self.x <= WORLD_LIMIT && -WORLD_LIMIT <= self.y <= WORLD_LIMIT
    }

    /// Whether the point lies within the world bounds.
    pub fn is_in_world(&self) -> (r: bool)
        ensures
            r == self.in_world(),
    {
        -WORLD_LIMIT <= self.x && self.x <= WORLD_LIMIT && -WORLD_LIMIT <= self.y && self.y
            <= WORLD_LIMIT
    }

    pub fn new(x: i64, y: i64) -> (r: Point)
        ensures
            r.x == x,
            r.y == y,
    {
        Point { x, y }
    }
}

impl Hitbox {
    pub open spec fn wf(self) -> bool {
        0 <= self.width <= WORLD_LIMIT && 0 <= self.height <= WORLD_LIMIT
    }

    pub fn new(width: i64, height: i64) -> (r: Hitbox)
        ensures
            r.width == width,
            r.height == height,
    {
        Hitbox { width, height }
    }
}

/// Overlap on one axis of two boxes centred at `pa` and `pb` with extents
/// `sa` and `sb`: the box ahead reaches past the near edge of the other,
/// or both share the centre. Edges are `p ± s / 2`, compared here doubled.
pub open spec fn axis_overlap(pa: int, sa: int, pb: int, sb: int) -> bool {
    (pa < pb && 2 * pa + sa > 2 * pb - sb) || (pa > pb && 2 * pa - sa < 2 * pb + sb) || pa == pb
}

/// Two hitboxes collide when they overlap on both axes.
pub open spec fn colliding(a: Hitbox, a_pos: Point, b: Hitbox, b_pos: Point) -> bool {
    axis_overlap(a_pos.x as int, a.width as int, b_pos.x as int, b.width as int)
        && axis_overlap(a_pos.y as int, a.height as int, b_pos.y as int, b.height as int)
}

/// A rectangle by its edges, each doubled so that half extents stay integral.
struct Rectangle {
    x_max: i128,
    x_min: i128,
    y_max: i128,
    y_min: i128,
}

fn hitbox_to_rectangle(hitbox: &Hitbox, position: &Point) -> (r: Rectangle)
    ensures
        r.x_max == 2 * position.x + hitbox.width,
        r.x_min == 2 * position.x - hitbox.width,
        r.y_max == 2 * position.y + hitbox.height,
        r.y_min == 2 * position.y - hitbox.height,
{
    let x2 = 2 * (position.x as i128);
    let y2 = 2 * (position.y as i128);
    Rectangle {
        x_max: x2 + hitbox.width as i128,
        x_min: x2 - hitbox.width as i128,
        y_max: y2 + hitbox.height as i128,
        y_min: y2 - hitbox.height as i128,
    }
}

/// Returns true when the two hitboxes, centred at the given positions, collide.
pub fn are_hitboxes_colliding(a: &Hitbox, a_pos: &Point, b: &Hitbox, b_pos: &Point) -> (r: bool)
    ensures
        r == colliding(*a, *a_pos, *b, *b_pos),
{
    let rect_a = hitbox_to_rectangle(a, a_pos);
    let rect_b = hitbox_to_rectangle(b, b_pos);

    let x_collision = (a_pos.x < b_pos.x && rect_a.x_max > rect_b.x_min) || (a_pos.x > b_pos.x
        && rect_a.x_min < rect_b.x_max) || a_pos.x == b_pos.x;

    let y_collision = (a_pos.y < b_pos.y && rect_a.y_max > rect_b.y_min) || (a_pos.y > b_pos.y
        && rect_a.y_min < rect_b.y_max) || a_pos.y == b_pos.y;

    x_collision && y_collision
}

/// Collision does not depend on which hitbox is named first.
pub proof fn lemma_colliding_symmetric(a: Hitbox, a_pos: Point, b: Hitbox, b_pos: Point)
    ensures
        colliding(a, a_pos, b, b_pos) == colliding(b, b_pos, a, a_pos),
{
}

} // verus!
