//! A foraging simulation on a grid: ants explore from a home cell, pick up
//! food, retrace their trail home and leave pheromones on the way.

pub mod coordinate;
pub mod cell;
mod random;
pub mod field;
pub mod ant;
pub mod colony;
pub mod food;
pub mod simulation;
