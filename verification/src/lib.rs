//! A minimal multi-dimensional numeric array library: a flat, row-major
//! buffer paired with a typed shape, and a reduction engine that computes
//! maxima, minima, and group sums along an arbitrary axis (or over the whole
//! array) for arrays of rank one, two, and three.

pub mod array;
pub mod axis;
pub mod dimension;
pub mod element;
pub mod errors;
pub mod ix;
pub mod nr;
pub mod operations;
pub mod reduce;
pub mod shape;

pub use array::Array;
pub use dimension::{Dimension, DimensionType};
pub use errors::ArrayError;
pub use ix::Ix;
pub use shape::Shape;
