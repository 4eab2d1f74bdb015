//! Conway's Game of Life on a torus.
//!
//! A [`game::Game`] holds two dense boards of equal extents, the current
//! generation and the one before it. A step swaps the two and computes the
//! new current board from the previous one, cell by cell, by the rule of
//! [`rule`] over the neighbours that [`topology`] finds across the edges.
//! [`generation`] says what a step is as mathematics, [`seed`] what seeding
//! a board does, and [`board`] allocates and clears the boards.

pub mod board;
pub mod game;
pub mod generation;
pub mod rule;
pub mod seed;
pub mod topology;
