//! Conway's Game of Life on an unbounded grid: the rule engine, the age
//! histogram, the mapping of live cells to screen glyphs, and the decisions
//! of the interactive viewer.

pub mod cell;
pub mod generation;
pub mod laws;
pub mod histogram;
pub mod render;
pub mod session;

pub use cell::{Cell, Point};
pub use generation::{count_neighbors, check_neighbor, init, life, Generation};
pub use histogram::histo;
pub use render::{histogram_rows, render, Glyph, HistoRow};
pub use session::{Button, Input, Session};

