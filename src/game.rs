use vstd::prelude::*;
use crate::characters::Character;

verus! {

/// Seconds of countdown between two waves.
pub const WAVE_COUNTDOWN_SECONDS: u8 = 3;

/// Whether the game runs, is paused or is over.
#[derive(Clone, Copy, Debug, PartialEq, Eq, Structural)]
pub enum GameState {
    Running,
    Paused,
    GameOver,
}

/// The phase of the current wave: the countdown, then the fight.
#[derive(Clone, Copy, Debug, PartialEq, Eq, Structural)]
pub enum WaveState {
    Start,
    Fight,
}

/// The fight is over once no hostile is left: the next wave's countdown starts.
pub fn next_wave(enemies: &Vec<Character>) -> (r: Option<WaveState>)
    ensures
        r == (if enemies@.len() == 0 { Some(WaveState::Start) } else { None }),
{
    if enemies.len() == 0 {
        Some(WaveState::Start)
    } else {
        None
    }
}

/// The game is over once no ally is left.
pub fn dead_summons_end_game(summons: &Vec<Character>) -> (r: Option<GameState>)
    ensures
        r == (if summons@.len() == 0 { Some(GameState::GameOver) } else { None }),
{
    if summons.len() == 0 {
        Some(GameState::GameOver)
    } else {
        None
    }
}

/// One second of the countdown between waves: from zero the fight starts
/// (None), else the count goes down by one.
pub fn update_countdown(count: u8) -> (r: Option<u8>)
    ensures
        count == 0 ==> r is None,
        count > 0 ==> r == Some((count - 1) as u8),
{
    if count == 0 {
        None
    } else {
        Some(count - 1)
    }
}

} // verus!
