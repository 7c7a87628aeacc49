//! A merge-and-drop falling-body simulation over a fixed-point model.
//!
//! Lengths are in thousandths of a pixel, times in microseconds and angles in
//! microradians. Each tick runs gravity, merging, collision, wall constraints
//! and Verlet integration over the bodies of a [`world::World`].
pub mod fixed;
pub mod config;
pub mod body;
pub mod physics;
pub mod spawner;
pub mod stages;
pub mod world;
pub mod laws;
