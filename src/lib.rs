//! Grid simulation engine for a colony-foraging terrain.
//!
//! The library holds the terrain grid, its pheromone field and transient
//! hazard flags, the radius-scoped queries that mutate it, and the per-agent
//! navigation and lifecycle rules. Positions are fixed-point integers
//! (see [`geometry::SUB`]); random decisions read draws from [`rolls::Rolls`].

pub mod geometry;
pub mod tile;
pub mod rolls;
pub mod grid;
pub mod disk;
pub mod pheromone;
pub mod terrain;
pub mod agent;
pub mod navigation;
pub mod lifecycle;
pub mod laws;
