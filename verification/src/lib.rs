//! Verified core of a two-species ecosystem simulation: a resource /
//! waste concentration field on a dense 2-D grid, evolved by a
//! reaction-diffusion law, coupled to a population of point agents that
//! move by chemotaxis and feed back into the field through a per-tick
//! occupancy count.  All quantities are fixed-point integers; the
//! drivers around the library only read configuration and write the
//! sampled output.

pub mod agents;
pub mod field;
pub mod kernels;
pub mod laws;
pub mod metrics;
pub mod fixed;
pub mod params;
pub mod rng;
pub mod seeder;
pub mod sim;
pub mod snapshots;
