use wave_defense::animation::{animate, flipped, AnimationSprite};
use wave_defense::characters::{Character, EnemyTypes, SummonTypes};
use wave_defense::difficulty::init_game;
use wave_defense::enemies::{move_enemies, shoot};
use wave_defense::game::{dead_summons_end_game, next_wave, update_countdown, GameState, WaveState};
use wave_defense::helpers::{
    avoid_positions, is_on_screen, isqrt, normalize, vector_multiply, vector_subtract, Screen,
};
use wave_defense::hitboxes::Point;
use wave_defense::player::{
    check_for_game_over, collisions, heal_player, move_player, spawn_player, PLAYER_MAX_HEALTH,
};
use wave_defense::projectiles::{Projectile, ProjectileTypes};
use wave_defense::registry::PositionRegistry;
use wave_defense::spawner::{
    chance_selects, choose_spawn_position, is_inside_padded, roll_spawn, sampling_exhausted,
    select_enemy_type,
    spawn_enemies, spawn_enemies_with, spawn_summons, SpawnRoll,
};
use wave_defense::summons::{move_summons, shoot_ranged_attacks};

fn character(x: i64, y: i64, type_index: usize, slot: usize, summon: bool) -> Character {
    Character {
        health: 10,
        last_shot: if summon { Some(0) } else { None },
        last_damage: 0,
        direction_vector: Point::new(0, 0),
        type_index,
        summon,
        position_index: slot,
        last_animation_frame: 0,
        position: Point::new(x, y),
    }
}

fn screen() -> Screen {
    Screen { width: 1_920_000, height: 1_080_000 }
}

#[test]
fn integer_square_root_rounds_down() {
    assert_eq!(isqrt(0), 0);
    assert_eq!(isqrt(1), 1);
    assert_eq!(isqrt(15), 3);
    assert_eq!(isqrt(16), 4);
    assert_eq!(isqrt(2_000_000), 1414);
    assert_eq!(isqrt(1u128 << 100), 1u64 << 50);
}

#[test]
fn normalize_scales_to_one_thousand() {
    assert_eq!(normalize(&Point::new(3, 4)), Point::new(600, 800));
    assert_eq!(normalize(&Point::new(-5_000, 0)), Point::new(-1000, 0));
    assert_eq!(normalize(&Point::new(1000, 1000)), Point::new(707, 707));
    assert_eq!(normalize(&Point::new(-1000, 1000)), Point::new(-707, 707));
    assert_eq!(normalize(&Point::new(0, 0)), Point::new(0, 0));
}

#[test]
fn vector_helpers() {
    assert_eq!(vector_subtract(&Point::new(5, -2), &Point::new(7, 3)), Point::new(-2, -5));
    assert_eq!(vector_multiply(&Point::new(5, -2), &Point::new(-1, -1)), Point::new(-5, 2));
    let s = screen();
    assert!(is_on_screen(&Point::new(1, 1), &s));
    assert!(!is_on_screen(&Point::new(0, 1), &s));
    assert!(!is_on_screen(&Point::new(1_920_000, 5), &s));
}

#[test]
fn type_selection_follows_the_distance_rule() {
    // Weight 100 is chosen by any draw; weight 0 only by a draw of 100.
    assert!(chance_selects(100, 1));
    assert!(!chance_selects(0, 99));
    assert!(chance_selects(0, 100));
    assert!(chance_selects(82, 18));
    assert!(!chance_selects(82, 17));
    assert_eq!(select_enemy_type(&vec![100, 0, 0, 0], &vec![1, 1, 1, 1]), Some(0));
    assert_eq!(select_enemy_type(&vec![82, 18, 0, 0], &vec![10, 90, 1, 1]), Some(1));
    assert_eq!(select_enemy_type(&vec![82, 18, 0, 0], &vec![10, 50, 99, 100]), Some(3));
    assert_eq!(select_enemy_type(&vec![82, 18, 0, 0], &vec![10, 50, 99, 99]), None);
}

#[test]
fn spawn_positions_fall_outside_the_padded_screen() {
    let s = screen();
    for wave in 0..20u32 {
        let roll = roll_spawn(&s, wave, 4);
        let p = choose_spawn_position(&roll.candidates, &s);
        assert!(!is_inside_padded(&p, &s));
        let reach = (s.height / 4 + wave as i64 * 20_000) * 2 + 20_000;
        assert!(p.x >= -reach && p.x < s.width + reach);
        assert!(p.y >= -reach && p.y < s.height + reach);
        assert_eq!(roll.type_draws.len(), 4);
        assert!(roll.type_draws.iter().all(|d| *d >= 1 && *d <= 100));
        assert!(roll.animation_offset >= 0 && roll.animation_offset < 300);
    }
    // Draws at one wave are random, not pinned to a corner of the range.
    let fixed: Vec<Point> =
        (0..20).map(|_| choose_spawn_position(&roll_spawn(&s, 3, 1).candidates, &s)).collect();
    assert!(fixed.iter().any(|p| *p != fixed[0]));
    assert!(fixed.iter().any(|p| p.x != -(s.height / 4 + 60_000) * 2 - 20_000));
    assert!(is_inside_padded(&Point::new(-19_999, 0), &s));
    assert!(!is_inside_padded(&Point::new(-20_000, 0), &s));
}

#[test]
fn first_candidate_outside_is_chosen() {
    let s = screen();
    let inside = Point::new(100_000, 100_000);
    let out_a = Point::new(-500_000, 0);
    let out_b = Point::new(0, -500_000);
    assert_eq!(choose_spawn_position(&vec![inside, out_a, out_b], &s), out_a);
    assert_eq!(choose_spawn_position(&vec![out_b, out_a], &s), out_b);
    assert!(!sampling_exhausted(&vec![inside, out_a], &s));
    assert!(sampling_exhausted(&vec![inside, inside], &s));
    // All inside: the fixed position at the left edge.
    assert_eq!(choose_spawn_position(&vec![inside, inside], &s), Point::new(-20_000, 540_000));
}

#[test]
fn hostiles_spawn_exactly_from_given_rolls() {
    let types = EnemyTypes::standard();
    let s = screen();
    let d = wave_defense::difficulty::Difficulty {
        wave: 2,
        enemy_spawn_chance: vec![64, 36, 0, 0],
        enemies: 3000,
    };
    let inside = Point::new(100_000, 100_000);
    let out = Point::new(-400_000, 7);
    let rolls = vec![
        // 36 <= 40: type 0.
        SpawnRoll { candidates: vec![inside, out], type_draws: vec![40, 1, 1, 1], animation_offset: 5 },
        // 36 > 10, 64 <= 70: type 1.
        SpawnRoll { candidates: vec![out], type_draws: vec![10, 70, 1, 1], animation_offset: 0 },
        // Nothing selected: no hostile, no slot.
        SpawnRoll { candidates: vec![out], type_draws: vec![10, 10, 99, 99], animation_offset: 0 },
        // Weight 0 needs a draw of 100.
        SpawnRoll { candidates: vec![inside], type_draws: vec![1, 1, 1, 100], animation_offset: 299 },
    ];
    let mut positions = PositionRegistry::new();
    let mut enemies: Vec<Character> = Vec::new();
    let fallbacks = spawn_enemies_with(&d, &types, &s, &mut positions, &mut enemies, 1000, &rolls);
    // Only the last roll's candidates all fell inside the padded screen.
    assert_eq!(fallbacks, 1);
    let kinds: Vec<usize> = enemies.iter().map(|c| c.type_index).collect();
    assert_eq!(kinds, vec![0, 1, 3]);
    assert_eq!(enemies[0].position, out);
    assert_eq!(enemies[0].last_animation_frame, 1005);
    assert_eq!(enemies[1].health, 7);
    assert_eq!(enemies[2].position, Point::new(-20_000, 540_000));
    assert_eq!(enemies[2].position_index, 2);
    assert_eq!(enemies[2].health, 11);
    assert_eq!(positions.0, vec![Some(out), Some(out), Some(Point::new(-20_000, 540_000))]);
}

#[test]
fn wave_spawn_creates_easiest_hostiles_off_screen() {
    let d = init_game();
    let types = EnemyTypes::standard();
    let s = screen();
    let mut positions = PositionRegistry::new();
    let mut enemies: Vec<Character> = Vec::new();
    let fallbacks = spawn_enemies(&d, &types, &s, &mut positions, &mut enemies, 1000);
    assert_eq!(fallbacks, 0);
    // Weight 100 is chosen by every draw: all nine hostiles spawn.
    assert_eq!(enemies.len(), 9);
    assert_eq!(positions.0.len(), 9);
    for (i, e) in enemies.iter().enumerate() {
        assert_eq!(e.type_index, 0);
        assert_eq!(e.health, 5);
        assert_eq!(e.position_index, i);
        assert_eq!(positions.0[i], Some(e.position));
        assert!(!is_inside_padded(&e.position, &s));
        assert!(e.last_animation_frame >= 1000 && e.last_animation_frame < 1300);
        assert!(!e.summon);
    }
}

#[test]
fn allies_are_bought_once_per_type_per_tick() {
    let types = SummonTypes::standard();
    let s = screen();
    let mut holdings = vec![12, 9, 7, 10];
    let mut positions = PositionRegistry::new();
    let mut summons: Vec<Character> = Vec::new();
    spawn_summons(&mut holdings, &types, &s, &mut positions, &mut summons, 500);
    // Eye costs 5 bones, ghost 4 blood, flameball 8 crystals, dwarf 10 crystals.
    assert_eq!(holdings, vec![7, 5, 7, 0]);
    let kinds: Vec<usize> = summons.iter().map(|c| c.type_index).collect();
    assert_eq!(kinds, vec![0, 1, 3]);
    for (i, c) in summons.iter().enumerate() {
        assert!(c.summon);
        assert_eq!(c.last_shot, Some(500));
        assert_eq!(c.position_index, i);
        assert!(c.position.x >= 0 && c.position.x < s.width);
        assert!(c.position.y >= 0 && c.position.y < s.height);
        assert_eq!(c.health, types.0[c.type_index].max_health);
    }
    // The eye has 2 health, the ghost 40, the dwarf 80.
    let healths: Vec<i32> = summons.iter().map(|c| c.health).collect();
    assert_eq!(healths, vec![2, 40, 80]);
    spawn_summons(&mut holdings, &types, &s, &mut positions, &mut summons, 600);
    assert_eq!(holdings, vec![2, 1, 7, 0]);
    assert_eq!(summons.len(), 5);
}

#[test]
fn hostiles_on_screen_fire_after_reloading() {
    let types = EnemyTypes::standard();
    let s = screen();
    let mut first = character(100_000, 100_000, 0, 0, false);
    first.direction_vector = Point::new(0, 1000);
    let off = character(-100_000, 100_000, 0, 1, false);
    let mut enemies = vec![first, off];
    // The first turn on screen only starts the reload.
    assert!(shoot(&mut enemies, &s, &types, 1000).is_empty());
    assert_eq!(enemies[0].last_shot, Some(1000));
    assert_eq!(enemies[1].last_shot, None);
    assert!(shoot(&mut enemies, &s, &types, 3500).is_empty());
    let shots = shoot(&mut enemies, &s, &types, 3501);
    assert_eq!(shots.len(), 1);
    assert_eq!(shots[0].position, Point::new(100_000, 100_000));
    assert_eq!(shots[0].direction_vector, Point::new(0, 1000));
    assert_eq!(shots[0].projectile_types_index, 0);
    assert_eq!(enemies[0].last_shot, Some(3501));
}

#[test]
fn ranged_allies_fire_at_the_nearest_hostile() {
    let types = SummonTypes::standard();
    let mut hostiles = PositionRegistry::new();
    hostiles.allocate(Point::new(0, 900_000));
    let gone = hostiles.allocate(Point::new(0, 1_000));
    hostiles.allocate(Point::new(300_000, 0));
    hostiles.free(gone);
    let eye = character(0, 0, 0, 0, true);
    let ghost = character(0, 0, 1, 1, true);
    let mut summons = vec![eye, ghost];
    let shots = shoot_ranged_attacks(&mut summons, &hostiles, &types, 1001);
    assert_eq!(shots.len(), 1);
    assert_eq!(shots[0].direction_vector, Point::new(1000, 0));
    assert_eq!(shots[0].projectile_types_index, 4);
    assert_eq!(summons[0].last_shot, Some(1001));
    assert_eq!(summons[1].last_shot, Some(0));
    // Not reloaded yet.
    assert!(shoot_ranged_attacks(&mut summons, &hostiles, &types, 2001).is_empty());
    // Reloaded, but no hostile left.
    let empty = PositionRegistry::new();
    assert!(shoot_ranged_attacks(&mut summons, &empty, &types, 2002).is_empty());
    assert_eq!(summons[0].last_shot, Some(2002));
}

#[test]
fn separation_pushes_apart_in_slot_order() {
    let slots = vec![Some(Point::new(0, 0)), Some(Point::new(10_000, 0)), None];
    let mut p = Point::new(0, 0);
    // 10 units apart with a 32 unit radius: overlap 54 units.
    let pushed = avoid_positions(&mut p, &slots, 0, 32_000, 10);
    assert!(pushed);
    // -10000 * 54000 * 10 / 10^6 = -5400.
    assert_eq!(p, Point::new(-5_400, 0));
    let mut q = Point::new(0, 0);
    assert!(!avoid_positions(&mut q, &vec![Some(Point::new(0, 0)), Some(Point::new(100_000, 0))], 0, 32_000, 10));
    assert_eq!(q, Point::new(0, 0));
}

#[test]
fn hostiles_walk_towards_the_defended_point() {
    let types = EnemyTypes::standard();
    let mut positions = PositionRegistry::new();
    positions.allocate(Point::new(0, 0));
    let mut enemies = vec![character(0, 0, 0, 0, false)];
    move_enemies(&mut enemies, &Point::new(1_000_000, 0), &types, &mut positions, 100);
    // 100 units per second for a tenth of a second.
    assert_eq!(enemies[0].position, Point::new(10_000, 0));
    assert_eq!(enemies[0].direction_vector, Point::new(1000, 0));
    assert_eq!(positions.0[0], Some(Point::new(10_000, 0)));
}

#[test]
fn allies_follow_the_cursor_when_active() {
    let types = SummonTypes::standard();
    let mut positions = PositionRegistry::new();
    positions.allocate(Point::new(0, 0));
    positions.allocate(Point::new(500_000, 500_000));
    let eye = character(0, 0, 0, 0, true);
    let ghost = character(500_000, 500_000, 1, 1, true);
    let mut summons = vec![eye, ghost];
    let cursor = Some(Point::new(0, 100_000));
    move_summons(&mut summons, cursor, true, false, &types, &mut positions, 10);
    // 800 units per second for ten milliseconds: 8 units up.
    assert_eq!(summons[0].position, Point::new(0, 8_000));
    assert_eq!(summons[1].position, Point::new(500_000, 500_000));
    // Within the dead zone the ally stops.
    let near = Some(Point::new(0, 20_000));
    move_summons(&mut summons, near, true, false, &types, &mut positions, 10);
    assert_eq!(summons[0].position, Point::new(0, 8_000));
    assert_eq!(summons[0].direction_vector, Point::new(0, 0));
}

#[test]
fn player_accelerates_and_bounces_off_edges() {
    let s = screen();
    let mut p = spawn_player(&s, 0);
    assert_eq!(p.position, Point::new(960_000, 540_000));
    assert_eq!(p.collectibles, vec![12, 0, 0, 0]);
    move_player(&mut p, false, false, false, true, &s, 10);
    // 8000 units per second squared for ten milliseconds: speed 80.
    assert_eq!(p.speed, 80);
    assert_eq!(p.position, Point::new(960_800, 540_000));
    assert!(p.movement_keys_pressed);
    move_player(&mut p, false, false, false, false, &s, 5);
    assert_eq!(p.speed, 40);
    assert_eq!(p.position, Point::new(961_000, 540_000));
    let mut edge = spawn_player(&s, 0);
    edge.position = Point::new(1_919_500, 540_000);
    move_player(&mut edge, false, false, false, true, &s, 10);
    assert_eq!(edge.position, Point::new(1_918_700, 540_000));
    assert_eq!(edge.direction_vector, Point::new(-1000, 0));
}

#[test]
fn player_loses_one_health_per_invulnerability_window() {
    let s = screen();
    let types = EnemyTypes::standard();
    let projectile_types = ProjectileTypes::standard();
    let mut p = spawn_player(&s, 0);
    let touching = vec![character(960_000, 540_000, 0, 0, false)];
    let shot = Projectile {
        position: Point::new(960_000, 540_000),
        direction_vector: Point::new(1000, 0),
        projectile_types_index: 1,
    };
    let friendly = Projectile { projectile_types_index: 4, ..shot };
    let left = collisions(&mut p, &touching, &types, &vec![shot, friendly], &projectile_types, 500);
    assert_eq!(left.len(), 1);
    assert_eq!(left[0].projectile_types_index, 4);
    assert_eq!(p.health, PLAYER_MAX_HEALTH);
    collisions(&mut p, &touching, &types, &Vec::new(), &projectile_types, 1000);
    assert_eq!(p.health, 2);
    collisions(&mut p, &touching, &types, &Vec::new(), &projectile_types, 1999);
    assert_eq!(p.health, 2);
    collisions(&mut p, &touching, &types, &Vec::new(), &projectile_types, 2000);
    assert_eq!(p.health, 1);
    collisions(&mut p, &Vec::new(), &types, &Vec::new(), &projectile_types, 9000);
    assert_eq!(p.health, 1);
    assert!(!check_for_game_over(&p));
    collisions(&mut p, &touching, &types, &Vec::new(), &projectile_types, 9000);
    assert!(check_for_game_over(&p));
    heal_player(&mut p);
    assert_eq!(p.health, 3);
}

#[test]
fn animation_advances_at_twelve_frames_per_second() {
    let sprite = AnimationSprite { frames: 3, facing_right: true };
    let mut c = character(0, 0, 0, 0, false);
    assert_eq!(animate(&sprite, 0, &mut c, 83), 0);
    assert_eq!(c.last_animation_frame, 0);
    assert_eq!(animate(&sprite, 0, &mut c, 84), 1);
    assert_eq!(c.last_animation_frame, 84);
    assert_eq!(animate(&sprite, 2, &mut c, 200), 0);
    assert_eq!(flipped(&sprite, &Point::new(5, 0)), Some(false));
    assert_eq!(flipped(&sprite, &Point::new(-5, 0)), Some(true));
    assert_eq!(flipped(&sprite, &Point::new(0, 9)), None);
    let left = AnimationSprite { frames: 3, facing_right: false };
    assert_eq!(flipped(&left, &Point::new(5, 0)), Some(true));
}

#[test]
fn wave_and_game_transitions() {
    assert_eq!(next_wave(&Vec::new()), Some(WaveState::Start));
    assert_eq!(next_wave(&vec![character(0, 0, 0, 0, false)]), None);
    assert_eq!(dead_summons_end_game(&Vec::new()), Some(GameState::GameOver));
    assert_eq!(dead_summons_end_game(&vec![character(0, 0, 0, 0, true)]), None);
    assert_eq!(update_countdown(3), Some(2));
    assert_eq!(update_countdown(0), None);
}
