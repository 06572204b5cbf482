//! A dynamically sized, rectangular two-dimensional grid stored in one
//! contiguous row-major buffer.

pub mod error;
pub mod grid;
pub mod laws;
pub mod layout;

pub use error::Error;
pub use grid::Vecgrid;
pub use layout::{indices_column_major, indices_row_major};
