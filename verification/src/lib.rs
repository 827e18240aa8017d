//! Map generation, visibility and game rules of a tile-based roguelike.
use vstd::prelude::*;

pub mod tile;
pub mod rect;
pub mod map;
pub mod point;
pub mod astar;
pub mod fov;
pub mod builders;
pub mod rng;
pub mod components;
pub mod gui;
pub mod state;
pub mod inventory;
pub mod combat;
pub mod text;
pub mod prefabs;
pub mod themes;
pub mod systems;
pub mod random_table;
pub mod spawner;
pub mod camera;
pub mod ai;
pub mod dungeon;

verus! {

} // verus!
