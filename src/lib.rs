//! Conway's Game of Life on a toroidal grid.
//!
//! `universe` holds the grid and the generation step, `cell` the values the
//! grid is made of, `render` what a renderer draws of a buffer, and `config`
//! how the grid size is read from a command line. `dynamics` and `patterns`
//! prove how grids evolve: dead grids stay dead, equal starts stay equal, a
//! block is a still life and a blinker oscillates.

pub mod cell;
mod chance;
pub mod config;
pub mod dynamics;
pub mod patterns;
pub mod render;
pub mod universe;

pub use cell::{Cell, CellState};
pub use config::parse_arguments;
pub use render::alive_squares;
pub use universe::{InvalidConfiguration, Universe};
