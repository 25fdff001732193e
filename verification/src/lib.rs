//! Generator for the geometric skeleton of an H-tree fractal.
//!
//! An H-tree of order `n` is a horizontal bar whose two ends each sprout a
//! shorter perpendicular bar, recursively, down to recursion depth `n`. The
//! crate decodes each segment of the figure directly from a linear position
//! counter: the bit length of the position gives the recursion level, the
//! remainder gives the segment's place inside that level's grid. Coordinates
//! are produced as exact grid data (cell indices and partition counts) from
//! which a consumer derives normalized floating-point endpoints in the
//! rectangle [0, 1] x [0, 1/sqrt(2)].

pub mod grid;
pub mod htree;
pub mod level;

pub use grid::Segment;
pub use htree::HTree;
pub use htree::HTreeIterator;
