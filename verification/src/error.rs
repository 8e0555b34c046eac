//! What can go wrong, split by who is at fault.

use vstd::prelude::*;

verus! {

/// The caller asked for a plot that cannot be laid out.
#[derive(Clone, Copy, Debug, PartialEq, Eq, Structural)]
pub enum ConfigError {
    /// No x sample is finite.
    NoFiniteX,
    /// Some x sample is finite, but no y sample is.
    NoFiniteY,
    /// The width or the height leaves no room beside the margin.
    TooSmall,
    /// The grid would have more cells than `usize` can count.
    TooLarge,
}

/// An axis was sent to a place that does not exist. The mapping from data to
/// cells is at fault, not the caller's configuration.
#[derive(Clone, Copy, Debug, PartialEq, Eq, Structural)]
pub enum DrawError {
    /// The horizontal axis was placed `up` cells above the bottom row of a
    /// frame that has no row there.
    NoSuchRow { up: usize },
    /// The cell at (`row`, `column`) belongs to an axis but not to the canvas.
    NoSuchCell { row: usize, column: usize },
}

} // verus!
