//! A minefield engine for a Minesweeper-style game: mine placement with
//! adjacency counts, per-cell reveal and flag state, a display-state query for
//! a presentation layer, and a pointer-to-cell coordinate mapping for an input
//! layer.

pub mod cell;
pub mod geometry;
pub mod minefield;
pub mod rng;
