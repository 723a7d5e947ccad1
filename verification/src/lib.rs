//! The rules of a small dungeon crawler: the tile map, rectangular rooms,
//! the objects that stand on the map, dungeon generation, movement, the
//! monsters' decisions and the mapping of key presses to player actions.
//! Drawing, reading the keyboard and field-of-view computation happen outside.

pub mod tile;
pub mod geometry;
pub mod dungeon;
pub mod object;
mod random;
pub mod movement;
pub mod input;
pub mod render;
pub mod laws;
