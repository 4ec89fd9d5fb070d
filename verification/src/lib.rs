//! The game-engine library: error values, inventory management, loot tables,
//! the terrain grid and its chunk index, archetype validation, room
//! generation, the player's steering, abilities and attacks, the game's
//! screens, the camera's registries, the level editor's text field and
//! render-batch index arithmetic, each
//! with its contract.
#![allow(unused_imports)]

pub mod abilities;
pub mod camera;
pub mod error;
pub mod fx;
pub mod game;
pub mod item;
pub mod inventory;
pub mod json_parsing;
pub mod level_editor;
pub mod loot;
pub mod pathfinding;
pub mod player;
pub mod render;
pub mod starting_level_generator;
pub mod terrain;
pub mod world;
