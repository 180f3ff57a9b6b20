//! Procedural dungeon generation and viewport mapping for a tile-based roguelike.
pub mod builder;
pub mod camera;
pub mod collapse;
pub mod components;
pub mod geometry;
pub mod map;
pub mod movement;
pub mod paths;
mod random;
pub mod render;
pub mod ring;
pub mod spawn;
pub mod walls;
