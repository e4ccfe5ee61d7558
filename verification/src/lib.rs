//! Tensor layouts: the shape, strides, rank and offset of a view over a
//! flat buffer, and the view manipulations built on them.

pub mod laws;
pub mod model;
pub mod products;
pub mod shapes;
