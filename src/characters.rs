use vstd::prelude::*;
use crate::hitboxes::{Hitbox, Point};

verus! {

/// Number of ally character types.
pub const SUMMON_TYPES: usize = 4;

/// Number of currency types.
pub const COLLECTIBLE_TYPES: usize = 4;

/// Largest speed, in world units per second, that a type table may hold.
pub const SPEED_LIMIT: i64 = 1_000_000;

/// How an ally moves and attacks.
#[derive(Clone, Copy, Debug, PartialEq, Eq, Structural)]
pub enum SummonType {
    Sentry,
    Melee,
    Ranged,
}

/// The fixed statistics of one character type.
#[derive(Clone, Copy, Debug)]
pub struct CharacterInfo {
    pub max_health: i32,
    /// World units per second.
    pub speed: i64,
    /// None for a hostile type.
    pub summon_type: Option<SummonType>,
    /// Milliseconds between two shots; None for a melee-only type.
    pub firing_rate: Option<u64>,
    /// Row of the projectile type table; None for a melee-only type.
    pub projectile_types_index: Option<usize>,
    pub contact_damange: i32,
    /// Milliseconds that must pass between two damage applications.
    pub invulnarability_time: u64,
    /// Currency type that an ally costs.
    pub collectible_type_required: Option<usize>,
    /// Currency amount that an ally costs.
    pub collectible_ammount_required: Option<i32>,
    /// Currency type that a hostile drops.
    pub drop_collectible: Option<usize>,
    /// Hitbox of the pickup that a hostile drops.
    pub drop_hitbox: Option<Hitbox>,
    pub hitbox: Hitbox,
    /// Frames of the animation strip.
    pub frames: usize,
}

/// One live character.
#[derive(Clone, Copy, Debug)]
pub struct Character {
    /// Current health; at or below zero the character is despawned.
    pub health: i32,
    /// Milliseconds timestamp of the last shot, once the character may shoot.
    pub last_shot: Option<u64>,
    /// Milliseconds timestamp of the last damage taken.
    pub last_damage: u64,
    /// Latest direction of movement, a vector of length one thousand or zero.
    pub direction_vector: Point,
    /// Row of the faction's type table.
    pub type_index: usize,
    pub summon: bool,
    /// Slot of the faction's position registry.
    pub position_index: usize,
    /// Milliseconds timestamp of the last animation frame change.
    pub last_animation_frame: u64,
    pub position: Point,
}

/// Hostile types, ordered from easiest to hardest.
pub struct EnemyTypes(pub Vec<CharacterInfo>);

/// Ally types.
pub struct SummonTypes(pub Vec<CharacterInfo>);

impl CharacterInfo {
    pub open spec fn wf(self) -> bool {
        &&& self.hitbox.wf()
        &&& 0 <= self.speed <= SPEED_LIMIT
        &&& self.max_health > 0
        &&& self.contact_damange >= 0
        &&& (self.drop_collectible matches Some(c) ==> c < COLLECTIBLE_TYPES)
        &&& (self.drop_hitbox matches Some(h) ==> h.wf())
        &&& (self.collectible_type_required matches Some(c) ==> c < COLLECTIBLE_TYPES)
        &&& (self.collectible_ammount_required matches Some(a) ==> a > 0)
    }
}

/// Every row of a type table is well formed.
pub open spec fn table_wf(t: Seq<CharacterInfo>) -> bool {
    forall|i: int| 0 <= i < t.len() ==> (#[trigger] t[i]).wf()
}

/// The hostile row with the given statistics: it fires its own projectile
/// type and drops its own currency type.
pub open spec fn hostile_row(health: i32, speed: i64, rate: u64, index: usize, contact: i32) -> CharacterInfo {
    CharacterInfo {
        max_health: health,
        speed,
        summon_type: None,
        firing_rate: Some(rate),
        projectile_types_index: Some(index),
        contact_damange: contact,
        invulnarability_time: 0,
        collectible_type_required: None,
        collectible_ammount_required: None,
        drop_collectible: Some(index),
        drop_hitbox: Some(Hitbox { width: 64_000, height: 64_000 }),
        hitbox: Hitbox { width: 38_000, height: 157_000 },
        frames: 6,
    }
}

/// The ally row with the given statistics, at speed 800.
pub open spec fn ally_row(
    health: i32,
    kind: SummonType,
    rate: Option<u64>,
    projectile: Option<usize>,
    contact: i32,
    invulnerability: u64,
    cost_type: usize,
    cost: i32,
    hitbox: Hitbox,
    frames: usize,
) -> CharacterInfo {
    CharacterInfo {
        max_health: health,
        speed: 800,
        summon_type: Some(kind),
        firing_rate: rate,
        projectile_types_index: projectile,
        contact_damange: contact,
        invulnarability_time: invulnerability,
        collectible_type_required: Some(cost_type),
        collectible_ammount_required: Some(cost),
        drop_collectible: None,
        drop_hitbox: None,
        hitbox,
        frames,
    }
}

fn milli(units: i64) -> (r: i64)
    requires
        0 <= units <= 1_000_000,
    ensures
        r == units * 1000,
{
    units * 1000
}

fn hostile(health: i32, speed: i64, rate: u64, index: usize, contact: i32) -> (r: CharacterInfo)
    requires
        health > 0,
        0 <= speed <= SPEED_LIMIT,
        contact >= 0,
        index < COLLECTIBLE_TYPES,
    ensures
        r.wf(),
        r == hostile_row(health, speed, rate, index, contact),
        r.max_health == health,
        r.speed == speed,
        (r.summon_type is None),
        r.firing_rate == Some(rate),
        r.projectile_types_index == Some(index),
        r.contact_damange == contact,
        r.invulnarability_time == 0,
        r.drop_collectible == Some(index),
        r.hitbox == (Hitbox { width: 38_000, height: 157_000 }),
{
    CharacterInfo {
        max_health: health,
        speed,
        summon_type: None,
        firing_rate: Some(rate),
        projectile_types_index: Some(index),
        contact_damange: contact,
        invulnarability_time: 0,
        collectible_type_required: None,
        collectible_ammount_required: None,
        drop_collectible: Some(index),
        drop_hitbox: Some(Hitbox { width: milli(64), height: milli(64) }),
        hitbox: Hitbox { width: milli(38), height: milli(157) },
        frames: 6,
    }
}

fn ally(
    max_health: i32,
    summon_type: SummonType,
    firing_rate: Option<u64>,
    projectile: Option<usize>,
    contact: i32,
    invulnerability: u64,
    cost_type: usize,
    cost: i32,
    hitbox: Hitbox,
    frames: usize,
) -> (r: CharacterInfo)
    requires
        max_health > 0,
        contact >= 0,
        cost_type < COLLECTIBLE_TYPES,
        cost > 0,
        hitbox.wf(),
    ensures
        r.wf(),
        r == ally_row(
            max_health,
            summon_type,
            firing_rate,
            projectile,
            contact,
            invulnerability,
            cost_type,
            cost,
            hitbox,
            frames,
        ),
        r.max_health == max_health,
        r.speed == 800,
        r.summon_type == Some(summon_type),
        r.firing_rate == firing_rate,
        r.projectile_types_index == projectile,
        r.contact_damange == contact,
        r.invulnarability_time == invulnerability,
        r.collectible_type_required == Some(cost_type),
        r.collectible_ammount_required == Some(cost),
        (r.drop_collectible is None),
        r.hitbox == hitbox,
{
    CharacterInfo {
        max_health,
        speed: 800,
        summon_type: Some(summon_type),
        firing_rate,
        projectile_types_index: projectile,
        contact_damange: contact,
        invulnarability_time: invulnerability,
        collectible_type_required: Some(cost_type),
        collectible_ammount_required: Some(cost),
        drop_collectible: None,
        drop_hitbox: None,
        hitbox,
        frames,
    }
}

impl EnemyTypes {
    /// The standard hostile table: four types of growing strength, each
    /// firing its own projectile type and dropping its own currency type.
    pub fn standard() -> (r: EnemyTypes)
        ensures
            r.0@.len() == crate::difficulty::ENEMY_TYPES,
            table_wf(r.0@),
            forall|i: int|
                0 <= i < r.0@.len() ==> (#[trigger] r.0@[i]).projectile_types_index == Some(
                    i as usize,
                ) && r.0@[i].drop_collectible == Some(i as usize),
            r.0@[0] == hostile_row(5, 100, 2500, 0, 1),
            r.0@[1] == hostile_row(7, 120, 2300, 1, 2),
            r.0@[2] == hostile_row(9, 140, 2000, 2, 1),
            r.0@[3] == hostile_row(11, 170, 1800, 3, 1),
    {
        let mut t: Vec<CharacterInfo> = Vec::new();
        t.push(hostile(5, 100, 2500, 0, 1));
        t.push(hostile(7, 120, 2300, 1, 2));
        t.push(hostile(9, 140, 2000, 2, 1));
        t.push(hostile(11, 170, 1800, 3, 1));
        EnemyTypes(t)
    }
}

impl SummonTypes {
    /// The standard ally table: a ranged eye, a melee ghost, a ranged
    /// flameball and a melee dwarf, each bought with its own currency type.
    pub fn standard() -> (r: SummonTypes)
        ensures
            r.0@.len() == SUMMON_TYPES,
            table_wf(r.0@),
            forall|i: int|
                0 <= i < r.0@.len() ==> (#[trigger] r.0@[i]).collectible_type_required == Some(
                    i as usize,
                ),
            r.0@[0].collectible_ammount_required == Some(5i32),
            r.0@[1].collectible_ammount_required == Some(4i32),
            r.0@[2].collectible_ammount_required == Some(8i32),
            r.0@[3].collectible_ammount_required == Some(10i32),
            r.0@[0].projectile_types_index == Some(4usize),
            r.0@[1].projectile_types_index is None,
            r.0@[2].projectile_types_index == Some(5usize),
            (r.0@[3].projectile_types_index is None),
            r.0@[0] == ally_row(2, SummonType::Ranged, Some(1000), Some(4), 1, 1000, 0, 5, Hitbox {
                width: 22_000,
                height: 22_000,
            }, 6),
            r.0@[1] == ally_row(40, SummonType::Melee, None, None, 5, 0, 1, 4, Hitbox {
                width: 48_000,
                height: 76_000,
            }, 5),
            r.0@[2] == ally_row(4, SummonType::Ranged, Some(800), Some(5), 1, 1000, 2, 8, Hitbox {
                width: 86_000,
                height: 98_000,
            }, 6),
            r.0@[3] == ally_row(80, SummonType::Melee, None, None, 10, 0, 3, 10, Hitbox {
                width: 62_000,
                height: 120_000,
            }, 6),
    {
        let mut t: Vec<CharacterInfo> = Vec::new();
        t.push(
            ally(2, SummonType::Ranged, Some(1000), Some(4), 1, 1000, 0, 5, Hitbox {
                width: milli(22),
                height: milli(22),
            }, 6),
        );
        t.push(
            ally(40, SummonType::Melee, None, None, 5, 0, 1, 4, Hitbox {
                width: milli(48),
                height: milli(76),
            }, 5),
        );
        t.push(
            ally(4, SummonType::Ranged, Some(800), Some(5), 1, 1000, 2, 8, Hitbox {
                width: milli(86),
                height: milli(98),
            }, 6),
        );
        t.push(
            ally(80, SummonType::Melee, None, None, 10, 0, 3, 10, Hitbox {
                width: milli(62),
                height: milli(120),
            }, 6),
        );
        SummonTypes(t)
    }
}

} // verus!
