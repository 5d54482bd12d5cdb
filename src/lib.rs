//! Simulation core of a turn-based grid dungeon: map generation, fog-of-war
//! bookkeeping, an entity-component store, movement and turn scheduling.
pub mod clamper;
pub mod coord;
pub mod map;
pub mod monster_ai;
pub mod rect;
pub mod turn;
pub mod visibility;
pub mod world;
