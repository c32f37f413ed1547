use wave_defense::game::{GameState, WaveState};
use wave_defense::helpers::Screen;
use wave_defense::hitboxes::Point;
use wave_defense::world::{Input, World};

fn idle() -> Input {
    Input {
        up: false,
        left: false,
        down: false,
        right: false,
        cursor: None,
        ranged_active: false,
        melee_active: false,
    }
}

fn screen() -> Screen {
    Screen { width: 1_920_000, height: 1_080_000 }
}

#[test]
fn new_game_starts_with_a_countdown() {
    let w = World::new(screen(), 0);
    assert_eq!(w.wave_state, WaveState::Start);
    assert_eq!(w.game_state, GameState::Running);
    assert_eq!(w.countdown, 3);
    assert_eq!(w.player.collectibles, vec![12, 0, 0, 0]);
    assert!(w.enemies.is_empty());
}

#[test]
fn first_tick_buys_an_ally_and_countdown_starts_the_fight() {
    let mut w = World::new(screen(), 0);
    w.tick(&idle(), 16, 16);
    // Twelve bones buy one eye; seven are left.
    assert_eq!(w.summons.len(), 1);
    assert_eq!(w.player.collectibles, vec![7, 0, 0, 0]);
    for s in 1..=3u64 {
        w.countdown_second(s * 1000);
        assert_eq!(w.wave_state, WaveState::Start);
    }
    assert_eq!(w.countdown, 0);
    w.countdown_second(4000);
    assert_eq!(w.wave_state, WaveState::Fight);
    assert_eq!(w.enemies.len(), 9);
    assert_eq!(w.enemy_positions.0.len(), 9);
}

#[test]
fn cleared_fight_advances_the_wave() {
    let mut w = World::new(screen(), 0);
    w.tick(&idle(), 16, 16);
    for s in 1..=4u64 {
        w.countdown_second(s * 1000);
    }
    assert_eq!(w.wave_state, WaveState::Fight);
    for e in w.enemies.iter_mut() {
        e.health = 0;
    }
    w.player.health = 1;
    w.tick(&idle(), 4016, 16);
    assert!(w.enemies.is_empty());
    assert_eq!(w.wave_state, WaveState::Start);
    assert_eq!(w.countdown, 3);
    assert_eq!(w.difficulty.wave, 1);
    assert_eq!(w.difficulty.enemy_spawn_chance, vec![82, 18, 0, 0]);
    assert_eq!(w.difficulty.enemies, 10800);
    assert_eq!(w.player.health, 3);
    // Nine pickups dropped where the hostiles fell.
    assert!(w.collectibles.len() <= 9);
    assert!(w.enemy_positions.0.iter().all(|s| s.is_none()));
}

#[test]
fn losing_every_ally_ends_the_game() {
    let mut w = World::new(screen(), 0);
    w.player.collectibles = vec![0, 0, 0, 0];
    for s in 1..=4u64 {
        w.countdown_second(s * 1000);
    }
    assert_eq!(w.wave_state, WaveState::Fight);
    assert!(w.summons.is_empty());
    w.tick(&idle(), 4016, 16);
    assert_eq!(w.game_state, GameState::GameOver);
    let before = w.enemies.len();
    w.tick(&idle(), 4032, 16);
    assert_eq!(w.game_state, GameState::GameOver);
    assert_eq!(w.enemies.len(), before);
    w.set_paused(false);
    assert_eq!(w.game_state, GameState::GameOver);
}

#[test]
fn paused_game_does_not_move() {
    let mut w = World::new(screen(), 0);
    w.set_paused(true);
    assert_eq!(w.game_state, GameState::Paused);
    let input = Input { right: true, ..idle() };
    w.tick(&input, 16, 16);
    assert_eq!(w.player.position, Point::new(960_000, 540_000));
    assert!(w.summons.is_empty());
    w.countdown_second(1000);
    assert_eq!(w.countdown, 3);
    w.set_paused(false);
    w.tick(&input, 32, 16);
    assert_eq!(w.player.position, Point::new(962_048, 540_000));
}
