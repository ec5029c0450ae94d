//! Conway's Game of Life on a fixed-size toroidal grid.
//!
//! The grid is stored densely in row-major order.  Two equivalent board
//! types are provided: [`grid::Grid`] stores each cell as a `bool`, while
//! [`board::Board`] stores an explicit two-state cell enum.  Both expose
//! seeding, inspection of the live cells, and a generation-stepping
//! operation whose behaviour is pinned down by the specification functions
//! in [`rules`].  General facts about the stepping rule (determinism,
//! still lifes, oscillators, wrap-around adjacency) are proved in [`laws`].
#![verifier::loop_isolation(false)]

pub mod board;
pub mod grid;
pub mod laws;
pub mod rules;
