//! A population of evolving cells on a toroidal grid.
//!
//! Each cell carries energy and a genome of weights. Once per tick the
//! field visits every coordinate in turn; a live cell pays its
//! metabolic cost, senses its eight neighbours, scores the possible
//! actions with its genome and carries out the best one. A cell that a
//! cost leaves without energy dies and stays on the grid as a
//! tombstone.
//!
//! Real-valued quantities (weights, sensor readings, scores) are held in
//! fixed point: an integer `v` stands for `v / UNIT`.

pub mod action;
pub mod cell;
pub mod coord;
pub mod field;
pub mod genome;
pub mod laws;
pub mod random;
pub mod scoring;
pub mod state;
