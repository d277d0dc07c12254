//! Core simulation of a grid-based tower-defense game.
//!
//! The library covers the deterministic heart of the game: procedural
//! path generation over a cell grid, enemies walking that path, towers
//! firing on a cooldown with deferred damage resolution, and the
//! money/wave/kill economy.  All simulation quantities are held in
//! fixed-point integers: positions in millicells (one grid cell is
//! 1000 units on a side) and time in milliseconds, so every tick is
//! exact and reproducible.  Rendering and input belong to the host.

pub mod combat;
pub mod controller;
pub mod enemy;
pub mod grid;
pub mod level;
pub mod rng;
pub mod settings;
pub mod stats;
pub mod tower;
pub mod ui;
