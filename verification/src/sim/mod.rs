//! The simulation: world state, commands and their effects, the simulator's tick,
//! vehicle schedules, cargo exchange, and the water pathfinder.
pub mod command;
pub mod commands;
pub mod conservation;
pub mod exchange;
pub mod keys;
pub mod schedule;
pub mod simulator;
pub mod station_index;
pub mod water_path;
pub mod world;
