//! A trainable affine layer `y = x * W^T + b` over fixed-point tensors.
//!
//! Scalars are signed Q15.16 numbers held in `i32`. The layer draws its
//! parameters from a named variable store, and its forward pass runs either
//! on dense tensors or on tensors in the accelerated layout, with the same
//! numeric result on both paths.
pub mod error;
pub mod fixed;
pub mod nn;
pub mod rng;
pub mod shape;
pub mod tensor;

pub use error::TensorError;
