use wave_defense::characters::{Character, CharacterInfo, EnemyTypes, SummonType, SummonTypes};
use wave_defense::collectibles::{detect_collisions, Collectible};
use wave_defense::damage::{deal_damage, despawn_characters, projectile_hit_character, take_damage};
use wave_defense::difficulty::{
    SetupError, init_game, max_value, trickle_spawn_chances, update_difficulty, Difficulty,
    MIN_TRICKLE_AMMOUNT,
};
use wave_defense::helpers::Screen;
use wave_defense::hitboxes::{are_hitboxes_colliding, Hitbox, Point};
use wave_defense::projectiles::{move_projectiles, Projectile, ProjectileInfo, ProjectileTypes};
use wave_defense::registry::PositionRegistry;

fn hostile_at(x: i64, y: i64, type_index: usize, slot: usize, health: i32) -> Character {
    Character {
        health,
        last_shot: None,
        last_damage: 0,
        direction_vector: Point::new(0, 0),
        type_index,
        summon: false,
        position_index: slot,
        last_animation_frame: 0,
        position: Point::new(x, y),
    }
}

fn ally_at(x: i64, y: i64, type_index: usize, slot: usize, health: i32) -> Character {
    Character { summon: true, last_shot: Some(0), ..hostile_at(x, y, type_index, slot, health) }
}

#[test]
fn difficulty_transition_trickles_eighteen() {
    let mut d = init_game();
    assert_eq!(d.enemy_spawn_chance, vec![100, 0, 0, 0]);
    update_difficulty(&mut d);
    assert_eq!(d.enemy_spawn_chance, vec![82, 18, 0, 0]);
    assert_eq!(d.wave, 1);
    update_difficulty(&mut d);
    assert_eq!(d.enemy_spawn_chance, vec![64, 36, 0, 0]);
    assert_eq!(d.wave, 2);
}

#[test]
fn trickle_with_explicit_maximum() {
    let mut w = vec![100u8, 0, 0, 0];
    trickle_spawn_chances(&mut w, MIN_TRICKLE_AMMOUNT, 100);
    assert_eq!(w, vec![82, 18, 0, 0]);
    // Two types above half the maximum: the harder one moves first, then
    // the doubled trickle moves from the easier one.
    let mut w = vec![40u8, 60, 0, 0];
    trickle_spawn_chances(&mut w, 18, 60);
    assert_eq!(w, vec![4, 78, 18, 0]);
    // A type below the doubled trickle keeps its weight.
    let mut w = vec![30u8, 70, 0];
    trickle_spawn_chances(&mut w, 18, 70);
    assert_eq!(w, vec![30, 52, 18]);
    // The hardest type never gives weight away.
    let mut w = vec![0u8, 0, 100];
    trickle_spawn_chances(&mut w, 18, 100);
    assert_eq!(w, vec![0, 0, 100]);
}

#[test]
fn spawn_weights_keep_their_sum() {
    let mut d = init_game();
    for _ in 0..40 {
        update_difficulty(&mut d);
        let sum: u32 = d.enemy_spawn_chance.iter().map(|w| *w as u32).sum();
        assert_eq!(sum, 100);
    }
    let mut d = Difficulty { wave: 0, enemy_spawn_chance: vec![10, 20, 30, 40], enemies: 9000 };
    for _ in 0..10 {
        update_difficulty(&mut d);
        let sum: u32 = d.enemy_spawn_chance.iter().map(|w| *w as u32).sum();
        assert_eq!(sum, 100);
    }
}

#[test]
fn hostile_count_grows_by_one_point_two() {
    let mut d = init_game();
    assert_eq!(d.enemies, 9000);
    update_difficulty(&mut d);
    assert_eq!(d.enemies, 10800);
    update_difficulty(&mut d);
    assert_eq!(d.enemies, 12960);
    update_difficulty(&mut d);
    assert_eq!(d.enemies, 15552);
    let exact = 9.0f64 * 1.2f64.powi(3);
    assert!((d.enemies as f64 / 1000.0 - exact).abs() < 1e-9);
    update_difficulty(&mut d);
    // 18662.4 rounds down.
    assert_eq!(d.enemies, 18662);
}

#[test]
fn max_value_of_weights() {
    assert_eq!(max_value(&vec![3, 9, 2]), Ok(9));
    assert_eq!(max_value(&vec![7]), Ok(7));
    assert_eq!(max_value(&vec![]), Err(()));
}

#[test]
fn overlapping_rectangles_collide() {
    let size = Hitbox::new(10, 10);
    assert!(are_hitboxes_colliding(&size, &Point::new(0, 0), &size, &Point::new(5, 0)));
    assert!(are_hitboxes_colliding(&size, &Point::new(5, 0), &size, &Point::new(0, 0)));
}

#[test]
fn distant_rectangles_do_not_collide() {
    let size = Hitbox::new(10, 10);
    assert!(!are_hitboxes_colliding(&size, &Point::new(0, 0), &size, &Point::new(20, 0)));
    assert!(!are_hitboxes_colliding(&size, &Point::new(20, 0), &size, &Point::new(0, 0)));
}

#[test]
fn collision_is_symmetric_and_edges_do_not_touch() {
    let a = Hitbox::new(10, 4);
    let b = Hitbox::new(6, 30);
    let spots = [(0, 0), (8, 0), (7, 16), (-7, -16), (8, 17), (0, 17)];
    for &(x1, y1) in spots.iter() {
        for &(x2, y2) in spots.iter() {
            let p = Point::new(x1, y1);
            let q = Point::new(x2, y2);
            assert_eq!(are_hitboxes_colliding(&a, &p, &b, &q), are_hitboxes_colliding(&b, &q, &a, &p));
        }
    }
    // Edges that only meet do not overlap.
    assert!(!are_hitboxes_colliding(&a, &Point::new(0, 0), &b, &Point::new(8, 0)));
    assert!(are_hitboxes_colliding(&a, &Point::new(0, 0), &b, &Point::new(7, 0)));
    // Equal centres collide even with empty boxes.
    let none = Hitbox::new(0, 0);
    assert!(are_hitboxes_colliding(&none, &Point::new(3, 3), &none, &Point::new(3, 3)));
}

#[test]
fn invulnerability_window_blocks_repeat_damage() {
    let mut c = hostile_at(0, 0, 0, 0, 10);
    assert!(!take_damage(&mut c, 1000, 3, 1000));
    assert_eq!(c.health, 10);
    assert!(take_damage(&mut c, 1000, 3, 5000));
    assert_eq!(c.health, 7);
    assert_eq!(c.last_damage, 5000);
    assert!(!take_damage(&mut c, 1000, 3, 5500));
    assert!(!take_damage(&mut c, 1000, 3, 6000));
    assert_eq!(c.health, 7);
    assert!(take_damage(&mut c, 1000, 3, 6001));
    assert_eq!(c.health, 4);
    // Health is held within i32.
    let mut low = hostile_at(0, 0, 0, 0, i32::MIN + 1);
    assert!(take_damage(&mut low, 0, 5, 1));
    assert_eq!(low.health, i32::MIN);
}

#[test]
fn contact_damage_without_invulnerability_applies_every_tick() {
    let enemy_types = EnemyTypes::standard();
    let summon_types = SummonTypes::standard();
    let projectile_types = ProjectileTypes::standard();
    // The ghost ally has no invulnerability and deals 5; the easiest hostile
    // has none either and deals 1.
    let mut enemies = vec![hostile_at(100_000, 100_000, 0, 0, 40)];
    let mut summons = vec![ally_at(110_000, 100_000, 1, 0, 40)];
    let projectiles: Vec<Projectile> = Vec::new();
    for tick in 1..=4u64 {
        deal_damage(
            &mut enemies,
            &mut summons,
            &projectiles,
            &projectile_types,
            &summon_types,
            &enemy_types,
            tick * 16,
        );
        assert_eq!(enemies[0].health, 40 - 5 * tick as i32);
        assert_eq!(summons[0].health, 40 - tick as i32);
    }
}

#[test]
fn contact_damage_respects_each_side_window() {
    let enemy_types = EnemyTypes::standard();
    let summon_types = SummonTypes::standard();
    let projectile_types = ProjectileTypes::standard();
    // The eye ally has one second of invulnerability.
    let mut enemies = vec![hostile_at(100_000, 100_000, 0, 0, 40)];
    let mut summons = vec![ally_at(100_000, 100_000, 0, 0, 10)];
    let none: Vec<Projectile> = Vec::new();
    deal_damage(&mut enemies, &mut summons, &none, &projectile_types, &summon_types, &enemy_types, 2000);
    assert_eq!(summons[0].health, 9);
    assert_eq!(enemies[0].health, 39);
    deal_damage(&mut enemies, &mut summons, &none, &projectile_types, &summon_types, &enemy_types, 2500);
    assert_eq!(summons[0].health, 9);
    assert_eq!(enemies[0].health, 38);
    deal_damage(&mut enemies, &mut summons, &none, &projectile_types, &summon_types, &enemy_types, 3001);
    assert_eq!(summons[0].health, 8);
    assert_eq!(enemies[0].health, 37);
}

#[test]
fn piercing_projectile_stays_and_plain_one_goes() {
    let enemy_types = EnemyTypes::standard();
    let summon_types = SummonTypes::standard();
    let projectile_types = ProjectileTypes::standard();
    let mut enemies = vec![hostile_at(500_000, 500_000, 3, 0, 11)];
    let mut summons: Vec<Character> = Vec::new();
    let piercing = Projectile {
        position: Point::new(500_000, 500_000),
        direction_vector: Point::new(1000, 0),
        projectile_types_index: 5,
    };
    let plain = Projectile { projectile_types_index: 4, ..piercing };
    let left = deal_damage(
        &mut enemies,
        &mut summons,
        &vec![piercing, plain],
        &projectile_types,
        &summon_types,
        &enemy_types,
        100,
    );
    assert_eq!(left.len(), 1);
    assert_eq!(left[0].projectile_types_index, 5);
    // Both hit at the same millisecond: the first hit restarts the window,
    // and no time has passed since, so only the piercing damage of 2 lands.
    assert_eq!(enemies[0].health, 9);
}

#[test]
fn projectile_hit_reports_removal() {
    let types = ProjectileTypes::standard();
    let info = EnemyTypes::standard().0[0];
    let mut c = hostile_at(0, 0, 0, 0, 5);
    assert!(!projectile_hit_character(&types.0[5], &Point::new(0, 0), &info, &mut c, 10));
    assert_eq!(c.health, 3);
    let mut c = hostile_at(0, 0, 0, 0, 5);
    assert!(projectile_hit_character(&types.0[4], &Point::new(0, 0), &info, &mut c, 10));
    assert_eq!(c.health, 4);
    let mut c = hostile_at(0, 0, 0, 0, 5);
    assert!(!projectile_hit_character(&types.0[4], &Point::new(1_000_000, 0), &info, &mut c, 10));
    assert_eq!(c.health, 5);
}

#[test]
fn hostile_projectiles_spare_hostiles() {
    let enemy_types = EnemyTypes::standard();
    let summon_types = SummonTypes::standard();
    let projectile_types = ProjectileTypes::standard();
    let mut enemies = vec![hostile_at(0, 0, 0, 0, 5)];
    let mut summons = vec![ally_at(900_000, 0, 1, 0, 40)];
    let shot = Projectile {
        position: Point::new(0, 0),
        direction_vector: Point::new(0, 1000),
        projectile_types_index: 0,
    };
    let at_ally = Projectile { position: Point::new(900_000, 0), ..shot };
    let left = deal_damage(
        &mut enemies,
        &mut summons,
        &vec![shot, at_ally],
        &projectile_types,
        &summon_types,
        &enemy_types,
        50,
    );
    assert_eq!(enemies[0].health, 5);
    assert_eq!(summons[0].health, 38);
    assert_eq!(left.len(), 1);
    assert_eq!(left[0].position, Point::new(0, 0));
}

#[test]
fn projectiles_leave_on_the_tick_they_exit() {
    let types = ProjectileTypes::standard();
    let screen = Screen { width: 1_000_000, height: 500_000 };
    let inside = Projectile {
        position: Point::new(500_000, 250_000),
        direction_vector: Point::new(1000, 0),
        projectile_types_index: 0,
    };
    let leaving = Projectile { position: Point::new(990_000, 250_000), ..inside };
    let kept = move_projectiles(&vec![inside, leaving], &types, &screen, 100);
    // 250 units per second for a tenth of a second: 25 units.
    assert_eq!(kept.len(), 1);
    assert_eq!(kept[0].position, Point::new(525_000, 250_000));
    let down = Projectile {
        position: Point::new(500_000, 10_000),
        direction_vector: Point::new(0, -1000),
        projectile_types_index: 0,
    };
    assert!(move_projectiles(&vec![down], &types, &screen, 40).is_empty());
    // A point on the edge is off the screen.
    let edge = Projectile { position: Point::new(500_000, 35_000), ..down };
    assert!(move_projectiles(&vec![edge], &types, &screen, 140).is_empty());
}

#[test]
fn dead_characters_despawn_and_drop_currency() {
    let enemy_types = EnemyTypes::standard();
    let summon_types = SummonTypes::standard();
    let mut enemy_positions = PositionRegistry::new();
    let mut summon_positions = PositionRegistry::new();
    // The registry knows the hostile at (1, 2) last at (10, 20).
    let a = enemy_positions.allocate(Point::new(10, 20));
    let b = enemy_positions.allocate(Point::new(3, 4));
    let s = summon_positions.allocate(Point::new(5, 6));
    let mut enemies = vec![hostile_at(1, 2, 2, a, 0), hostile_at(3, 4, 1, b, 4)];
    let mut summons = vec![ally_at(5, 6, 1, s, -3)];
    let drops = despawn_characters(
        &mut enemies,
        &mut summons,
        &mut summon_positions,
        &mut enemy_positions,
        &summon_types,
        &enemy_types,
    );
    assert_eq!(enemies.len(), 1);
    assert_eq!(enemies[0].position_index, b);
    assert!(summons.is_empty());
    assert_eq!(enemy_positions.0, vec![None, Some(Point::new(3, 4))]);
    assert_eq!(summon_positions.0, vec![None]);
    assert_eq!(drops.len(), 1);
    assert_eq!(drops[0].collectible_type, 2);
    assert_eq!(drops[0].position, Point::new(10, 20));
    assert_eq!(drops[0].hitbox, Hitbox::new(64_000, 64_000));
}

#[test]
fn pickups_touching_the_player_are_collected() {
    let player = Hitbox::new(58_000, 100_000);
    let near = Collectible {
        collectible_type: 1,
        hitbox: Hitbox::new(64_000, 64_000),
        position: Point::new(10_000, 0),
    };
    let far = Collectible { position: Point::new(500_000, 0), ..near };
    let other = Collectible { collectible_type: 3, ..near };
    let mut holdings = vec![12, 0, 0, 0];
    let left = detect_collisions(&player, &Point::new(0, 0), &vec![near, far, other], &mut holdings);
    assert_eq!(holdings, vec![12, 1, 0, 1]);
    assert_eq!(left.len(), 1);
    assert_eq!(left[0].position, Point::new(500_000, 0));
}

#[test]
fn registry_slots_are_stable() {
    let mut r = PositionRegistry::new();
    let a = r.allocate(Point::new(1, 1));
    let b = r.allocate(Point::new(2, 2));
    assert_eq!((a, b), (0, 1));
    r.free(a);
    assert_eq!(r.read(a), None);
    r.write(a, Point::new(9, 9));
    assert_eq!(r.read(a), None);
    r.write(b, Point::new(7, 7));
    assert_eq!(r.read(b), Some(Point::new(7, 7)));
    let c = r.allocate(Point::new(3, 3));
    assert_eq!(c, 2);
}

#[test]
fn standard_tables() {
    let e = EnemyTypes::standard();
    let s = SummonTypes::standard();
    let p = ProjectileTypes::standard();
    assert_eq!(e.0.len(), 4);
    assert_eq!(s.0.len(), 4);
    assert_eq!(p.0.len(), 6);
    let healths: Vec<i32> = e.0.iter().map(|i: &CharacterInfo| i.max_health).collect();
    assert_eq!(healths, vec![5, 7, 9, 11]);
    assert_eq!(s.0[1].summon_type, Some(SummonType::Melee));
    assert_eq!(s.0[3].contact_damange, 10);
    assert!(p.0[5].piercing);
    let info: &ProjectileInfo = &p.0[3];
    assert_eq!(info.damage, 8);
}

#[test]
fn spawn_weights_must_sum_to_one_hundred() {
    let d = Difficulty::new(vec![70, 30], 5000).unwrap();
    assert_eq!(d.wave, 0);
    assert_eq!(d.enemies, 5000);
    assert_eq!(d.enemy_spawn_chance, vec![70, 30]);
    assert_eq!(Difficulty::new(vec![], 5000).err(), Some(SetupError::EmptyConfiguration));
    assert_eq!(Difficulty::new(vec![70, 31], 5000).err(), Some(SetupError::EmptyConfiguration));
    assert_eq!(Difficulty::new(vec![255, 255], 5000).err(), Some(SetupError::EmptyConfiguration));
}

#[test]
fn hostile_count_stays_close_to_the_exact_growth() {
    // 1.2 times 7 thousandths is 8.4, rounded to 8; 1.2 times 8 is 9.6,
    // rounded to 10; 1.2 times 5 is exactly 6.
    let mut d = Difficulty::new(vec![100], 7).unwrap();
    update_difficulty(&mut d);
    assert_eq!(d.enemies, 8);
    update_difficulty(&mut d);
    assert_eq!(d.enemies, 10);
    let mut d = Difficulty::new(vec![100], 5).unwrap();
    update_difficulty(&mut d);
    assert_eq!(d.enemies, 6);
    // 1.2 times 1 thousandth is 1.2, rounded to 1.
    let mut d = Difficulty::new(vec![100], 1).unwrap();
    update_difficulty(&mut d);
    assert_eq!(d.enemies, 1);
    let start = 123_457u64;
    let mut d = Difficulty::new(vec![100], start).unwrap();
    for n in 1..=10i32 {
        update_difficulty(&mut d);
        let exact = start as f64 * 1.2f64.powi(n);
        let drift = 2.5 * (1.2f64.powi(n) - 1.0);
        assert!((d.enemies as f64 - exact).abs() <= drift + 1e-6);
    }
}

#[test]
fn plain_projectile_is_used_up_by_its_first_hit() {
    let enemy_types = EnemyTypes::standard();
    let summon_types = SummonTypes::standard();
    let projectile_types = ProjectileTypes::standard();
    let mut summons: Vec<Character> = Vec::new();
    let plain = Projectile {
        position: Point::new(500_000, 500_000),
        direction_vector: Point::new(1000, 0),
        projectile_types_index: 4,
    };
    // Two vulnerable hostiles under one plain projectile: only the first in
    // faction order is hit.
    let mut enemies = vec![
        hostile_at(500_000, 500_000, 3, 0, 11),
        hostile_at(505_000, 500_000, 3, 1, 11),
    ];
    let left = deal_damage(
        &mut enemies,
        &mut summons,
        &vec![plain],
        &projectile_types,
        &summon_types,
        &enemy_types,
        100,
    );
    assert!(left.is_empty());
    assert_eq!(enemies[0].health, 10);
    assert_eq!(enemies[1].health, 11);
    // A piercing projectile hits both.
    let piercing = Projectile { projectile_types_index: 5, ..plain };
    let left = deal_damage(
        &mut enemies,
        &mut summons,
        &vec![piercing],
        &projectile_types,
        &summon_types,
        &enemy_types,
        200,
    );
    assert_eq!(left.len(), 1);
    assert_eq!(enemies[0].health, 8);
    assert_eq!(enemies[1].health, 9);
    // The first hostile touched uses a plain projectile up even while it is
    // invulnerable: the second is still spared.
    let mut shielded = vec![
        Character { last_damage: 900, ..hostile_at(500_000, 500_000, 3, 0, 11) },
        hostile_at(505_000, 500_000, 3, 1, 11),
    ];
    let shielded_types = EnemyTypes(
        enemy_types.0.iter().map(|i| CharacterInfo { invulnarability_time: 500, ..*i }).collect(),
    );
    let left = deal_damage(
        &mut shielded,
        &mut summons,
        &vec![plain],
        &projectile_types,
        &summon_types,
        &shielded_types,
        1000,
    );
    assert!(left.is_empty());
    assert_eq!(shielded[0].health, 11);
    assert_eq!(shielded[1].health, 11);
}
