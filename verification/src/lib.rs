//! A sparse, chunked two-dimensional grid over signed coordinates, with a
//! two-phase generation step for cellular automata.
//!
//! Cells are addressed by absolute coordinates and stored in square chunks
//! that are allocated on the first write. A step reads every cell of the
//! allocated chunks and of the chunks that touch them against the grid as
//! it stands, and only then writes what the rule asked for.

pub mod floor;
pub mod point;
pub mod neighbors;
pub mod subgrid;
mod fx;
pub mod scan;
pub mod grid;
pub mod tick;
pub mod render;
pub mod grid3;
pub mod grid4;
pub mod radix;

pub use crate::floor::{div_neg_isize, div_neg_isize_2, div_neg_isize_3};
pub use crate::grid::Grid;
pub use crate::point::{GridLength, Offset, Point, SubGridIndex, SubGridPoint};
pub use crate::subgrid::SubGrid;
pub use crate::tick::Update;
