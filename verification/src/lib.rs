//! Simulation core of a top-down action game: the tile grid and its ray
//! casting, the weapon state machines, pickup resolution and the level file
//! format.
//!
//! Every coordinate is a whole number of world units and every duration a
//! whole number of milliseconds, so that each rule of the simulation is exact
//! and can be stated as a contract.

pub mod codec;
pub mod format;
pub mod geometry;
pub mod grid;
pub mod level;
pub mod material;
pub mod ray_course;
pub mod raycast;
pub mod round_trip;
pub mod segment;
pub mod single;
pub mod weapon;
pub mod world;
