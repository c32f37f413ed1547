//! A wave-based arena combat simulation: characters, hitboxes, damage,
//! projectiles, spawning, the currency economy and difficulty progression.
//!
//! World coordinates are integers in thousandths of a world unit, times are
//! integers in milliseconds and directions are integer vectors whose length
//! is (close to) one thousand.

pub mod hitboxes;
pub mod difficulty;
pub mod characters;
pub mod registry;
pub mod helpers;
pub mod projectiles;
pub mod collectibles;
pub mod damage;
pub mod spawner;
pub mod enemies;
pub mod summons;
pub mod player;
pub mod animation;
pub mod game;
pub mod world;
