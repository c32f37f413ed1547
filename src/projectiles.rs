use vstd::prelude::*;
use crate::hitboxes::{Hitbox, Point};
use crate::helpers::{Screen, advance, advanced, is_direction, is_on_screen, on_screen, DELTA_LIMIT};
use crate::characters::SPEED_LIMIT;

verus! {

/// A projectile in flight.
#[derive(Clone, Copy, Debug)]
pub struct Projectile {
    pub position: Point,
    /// Direction of flight, of length one thousand.
    pub direction_vector: Point,
    /// Row of the projectile type table.
    pub projectile_types_index: usize,
}

/// The fixed statistics of one projectile type.
#[derive(Clone, Copy, Debug)]
pub struct ProjectileInfo {
    pub damage: i32,
    /// World units per second.
    pub speed: i64,
    /// A piercing projectile is not removed when it hits.
    pub piercing: bool,
    /// Fired by hostiles (it hurts allies) rather than by allies.
    pub enemy: bool,
    pub hitbox: Hitbox,
}

/// The projectile type table.
pub struct ProjectileTypes(pub Vec<ProjectileInfo>);

impl ProjectileInfo {
    pub open spec fn wf(self) -> bool {
        0 <= self.speed <= SPEED_LIMIT && self.hitbox.wf() && self.damage >= 0
    }
}

impl Projectile {
    /// Its type is a row of `types` and its fields are in range.
    pub open spec fn wf(self, types: Seq<ProjectileInfo>) -> bool {
        &&& self.projectile_types_index < types.len()
        &&& self.position.in_world()
        &&& is_direction(self.direction_vector)
    }
}

/// Every row of the projectile type table is well formed.
pub open spec fn projectile_table_wf(t: Seq<ProjectileInfo>) -> bool {
    forall|i: int| 0 <= i < t.len() ==> (#[trigger] t[i]).wf()
}

/// `p` after flying for `dt` milliseconds.
pub open spec fn flown(p: Projectile, types: Seq<ProjectileInfo>, dt: int) -> Projectile {
    let (x, y) = advanced(
        p.position,
        p.direction_vector,
        types[p.projectile_types_index as int].speed as int,
        dt,
    );
    Projectile { position: Point { x: x as i64, y: y as i64 }, ..p }
}

/// The projectiles of `ps` after flying for `dt` milliseconds, without
/// those that have left the screen.
pub open spec fn flown_on_screen(
    ps: Seq<Projectile>,
    types: Seq<ProjectileInfo>,
    s: Screen,
    dt: int,
) -> Seq<Projectile>
    decreases ps.len(),
{
    if ps.len() == 0 {
        Seq::empty()
    } else {
        let rest = flown_on_screen(ps.drop_last(), types, s, dt);
        let q = flown(ps.last(), types, dt);
        if on_screen(q.position, s) {
            rest.push(q)
        } else {
            rest
        }
    }
}

fn milli(units: i64) -> (r: i64)
    requires
        0 <= units <= 1_000_000,
    ensures
        r == units * 1000,
{
    units * 1000
}

/// The projectile row with the given statistics and a square hitbox of
/// `size` world units.
pub open spec fn projectile_row(damage: i32, speed: i64, piercing: bool, enemy: bool, size: i64) -> ProjectileInfo {
    ProjectileInfo {
        damage,
        speed,
        piercing,
        enemy,
        hitbox: Hitbox { width: (size * 1000) as i64, height: (size * 1000) as i64 },
    }
}

fn projectile_info(damage: i32, speed: i64, piercing: bool, enemy: bool, size: i64) -> (r:
    ProjectileInfo)
    requires
        damage >= 0,
        0 <= speed <= SPEED_LIMIT,
        0 <= size <= 1000,
    ensures
        r.wf(),
        r == projectile_row(damage, speed, piercing, enemy, size),
        r.damage == damage,
        r.speed == speed,
        r.piercing == piercing,
        r.enemy == enemy,
        r.hitbox.width == size * 1000,
        r.hitbox.height == size * 1000,
{
    ProjectileInfo {
        damage,
        speed,
        piercing,
        enemy,
        hitbox: Hitbox { width: milli(size), height: milli(size) },
    }
}

impl ProjectileTypes {
    /// The standard projectile table: four hostile types of growing damage,
    /// then a plain and a piercing ally type.
    pub fn standard() -> (r: ProjectileTypes)
        ensures
            r.0@.len() == 6,
            projectile_table_wf(r.0@),
            forall|i: int| 0 <= i < 4 ==> (#[trigger] r.0@[i]).enemy && !r.0@[i].piercing,
            !r.0@[4].enemy && !r.0@[4].piercing,
            !r.0@[5].enemy && r.0@[5].piercing,
            r.0@[0] == projectile_row(2, 250, false, true, 16),
            r.0@[1] == projectile_row(3, 280, false, true, 16),
            r.0@[2] == projectile_row(4, 300, false, true, 16),
            r.0@[3] == projectile_row(8, 330, false, true, 16),
            r.0@[4] == projectile_row(1, 350, false, false, 17),
            r.0@[5] == projectile_row(2, 400, true, false, 15),
    {
        let mut t: Vec<ProjectileInfo> = Vec::new();
        t.push(projectile_info(2, 250, false, true, 16));
        t.push(projectile_info(3, 280, false, true, 16));
        t.push(projectile_info(4, 300, false, true, 16));
        t.push(projectile_info(8, 330, false, true, 16));
        t.push(projectile_info(1, 350, false, false, 17));
        t.push(projectile_info(2, 400, true, false, 15));
        ProjectileTypes(t)
    }
}

/// Moves every projectile for `delta` milliseconds and returns those still
/// strictly inside the screen, in their order; one that left is dropped in
/// the same tick.
pub fn move_projectiles(
    projectiles: &Vec<Projectile>,
    projectile_types: &ProjectileTypes,
    screen: &Screen,
    delta: u64,
) -> (r: Vec<Projectile>)
    requires
        projectile_table_wf(projectile_types.0@),
        forall|i: int|
            0 <= i < projectiles@.len() ==> (#[trigger] projectiles@[i]).wf(projectile_types.0@),
        screen.wf(),
        delta <= DELTA_LIMIT,
    ensures
        r@ == flown_on_screen(projectiles@, projectile_types.0@, *screen, delta as int),
        forall|i: int| 0 <= i < r@.len() ==> on_screen((#[trigger] r@[i]).position, *screen),
        forall|i: int| 0 <= i < r@.len() ==> (#[trigger] r@[i]).wf(projectile_types.0@),
{
    let mut kept: Vec<Projectile> = Vec::new();
    let mut i: usize = 0;
    while i < projectiles.len()
        invariant
            i <= projectiles@.len(),
            projectile_table_wf(projectile_types.0@),
            forall|k: int|
                0 <= k < projectiles@.len() ==> (#[trigger] projectiles@[k]).wf(
                    projectile_types.0@,
                ),
            screen.wf(),
            delta <= DELTA_LIMIT,
            kept@ == flown_on_screen(
                projectiles@.subrange(0, i as int),
                projectile_types.0@,
                *screen,
                delta as int,
            ),
            forall|k: int| 0 <= k < kept@.len() ==> on_screen((#[trigger] kept@[k]).position, *screen),
            forall|k: int| 0 <= k < kept@.len() ==> (#[trigger] kept@[k]).wf(projectile_types.0@),
        decreases projectiles@.len() - i,
    {
        let p = projectiles[i];
        let info = &projectile_types.0[p.projectile_types_index];
        assert(projectile_types.0@[p.projectile_types_index as int].wf());
        let position = advance(&p.position, &p.direction_vector, info.speed, delta);
        let q = Projectile { position, ..p };
        proof {
            assert(projectiles@.subrange(0, i as int + 1).drop_last() =~= projectiles@.subrange(
                0,
                i as int,
            ));
        }
        if is_on_screen(&q.position, screen) {
            kept.push(q);
        }
        i += 1;
    }
    assert(projectiles@.subrange(0, projectiles@.len() as int) =~= projectiles@);
    kept
}

} // verus!
