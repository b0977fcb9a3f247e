//! Procedural-world and turn-scheduling core of a turn-based, grid-walking
//! dungeon game: level generation, distance fields, field of view and the
//! turn scheduler, with every function verified against its contract.

pub mod ai;
pub mod architect;
pub mod automata;
mod combinations;
pub mod data;
pub mod distance;
pub mod distance_laws;
pub mod entities;
pub mod fov;
pub mod grid;
pub mod items;
pub mod map;
pub mod map_builder;
pub mod mobs;
pub mod placement;
pub mod player_input;
pub mod position;
pub mod rect;
pub mod rng;
pub mod rooms;
pub mod spawning;
pub mod turn_state;
pub mod world;
