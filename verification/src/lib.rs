//! Character-grid plotting of numeric data: axis bounds, the mapping from
//! data to grid cells, axis drawing and the two ways of filling the grid.
//!
//! Sample values are IEEE-754 binary64 numbers. The library carries each one
//! as its 64-bit pattern and decides everything that can be decided on the
//! pattern alone: which samples are finite, how they are ordered, where the
//! axes go. It never performs binary64 arithmetic itself; the caller supplies
//! the few differences and grid offsets that need it.

pub mod bounds;
pub mod canvas;
pub mod cli;
pub mod error;
pub mod frame;
pub mod render;
pub mod sample;
pub mod text;
