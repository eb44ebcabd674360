//! Verified core of a small feed-forward network engine: the shape rules that
//! make a stack of layers compose, and the per-epoch plan of shuffled
//! mini-batches that training walks through.

pub mod batch;
pub mod shape;

pub use shape::{input_grad_shape, output_shape, LayerKind, Shape, ShapeError};
pub use batch::{chunk_batches, ordered_indices, Shuffler};
