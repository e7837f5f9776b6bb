use vstd::prelude::*;

verus! {

/// Width of the dungeon map, in cells.
pub const MAP_WIDTH: i32 = 80;

/// Height of the dungeon map, in cells.
pub const MAP_HEIGHT: i32 = 43;

/// Index of the player in the object list.
pub const PLAYER: usize = 0;

/// Most items the inventory holds.
pub const INVENTORY_CAPACITY: usize = 26;

/// Chance, in percent, that a spawned item is a healing potion.
pub const HEAL_SPAWN_CHANCE: i32 = 25;

/// Chance, in percent, that a spawned item is a scroll of fire.
pub const FIRE_SCROLL_SPAWN_CHANCE: i32 = 25;

/// Chance, in percent, that a spawned item is a double damage potion.
pub const DOUBLE_DAMAGE_SPAWN_CHANCE: i32 = 25;

pub const HEAL_AMOUNT: i32 = 10;

pub const FIRE_DAMAGE: i32 = 10;

pub const FIRE_RANGE: i32 = 10;

pub const BLIND_RANGE: i32 = 3;

pub const BLIND_NUM_TURNS: i32 = 10;

pub const LEVEL_UP_XP_BASE: i32 = 200;

pub const LEVEL_UP_XP_PER_LEVEL: i32 = 150;

/// Monster stat gains per dungeon level.
pub const DAMAGE_PER_LEVEL: i32 = 2;

pub const ARMOR_PER_LEVEL: i32 = 1;

pub const MAX_HP_PER_LEVEL: i32 = 5;

pub const XP_PER_LEVEL: i32 = 20;

/// Player stat gains per character level.
pub const PLAYER_DAMAGE_PER_LEVEL: i32 = 5;

pub const PLAYER_ARMOR_PER_LEVEL: i32 = 3;

pub const PLAYER_MAX_HP_PER_LEVEL: i32 = 25;

/// Experience a freshly spawned monster is worth.
pub const MONSTER_XP: i32 = 75;

pub const ROOM_MAX_SIZE: i32 = 10;

pub const ROOM_MIN_SIZE: i32 = 6;

pub const MAX_ROOMS: i32 = 15;

pub const MAX_ROOM_MONSTERS: i32 = 3;

pub const MAX_ROOM_ITEMS: i32 = 2;

pub const FOV_RADIUS: i32 = 10;

pub const FOV_LIGHT_WALLS: bool = true;

} // verus!
