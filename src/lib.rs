use vstd::prelude::*;

/// A grid of character cells and the painting of rows into it.
pub mod grid;
/// Forward and reverse layout of a document's lines onto the grid.
pub mod layout;
/// Splitting a file's bytes into lines.
pub mod lines;
/// The status row: file name and position.
pub mod status;
/// The viewer's state and its response to keys and resizes.
pub mod term;
/// The display cells of a line.
pub mod text;

