//! Simulation core of a turn-based hex-grid wargame: a cost-based
//! pathfinder over the grid, and the command / event / effect vocabulary
//! through which every change of game state passes.
pub mod position;
pub mod unit;
pub mod grid;
pub mod pathfinder;
pub mod event;
pub mod command;
