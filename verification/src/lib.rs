//! Core simulation of a top-down arcade combat game: steering of hostile
//! agents, cooldown-gated attacks, circle collision resolution, a health and
//! score pipeline, and a spawn director. All geometry is fixed-point: world
//! coordinates are held in milli-units (one thousandth of a world unit), so
//! every position update and overlap test is exact integer arithmetic.

pub mod geom;
pub mod timer;
pub mod health;
pub mod enemy;
pub mod projectile;
pub mod score;
pub mod player;
pub mod spark;
pub mod spawn;
pub mod world;
