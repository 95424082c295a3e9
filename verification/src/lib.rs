//! A turn-based dungeon-crawler simulation engine: procedural dungeon
//! generation, a spatial occupancy index, field of view, cost-field pathing,
//! melee combat and the turn-phase controller that sequences them.

pub mod combat;
pub mod grid;
pub mod lists;
pub mod map;
pub mod monster;
pub mod occupancy;
pub mod pathing;
pub mod paths;
pub mod player;
pub mod position;
pub mod rect;
pub mod rng;
pub mod spawn;
pub mod state;
pub mod turn;
pub mod visibility;
pub mod world;
