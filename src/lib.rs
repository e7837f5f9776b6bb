//! A turn-based dungeon crawler's simulation core: map generation, combat,
//! items, monster behaviour and levelling, over plain values.

pub mod config;
pub mod colors;
pub mod structures;
pub mod dungeon;
pub mod generator;
pub mod visibility;
pub mod skills;
pub mod engine;
pub mod ai;
pub mod turn;
pub mod monster_table;
mod random;
