//! Layers and the parameters they are made from.
pub mod init;
pub mod linear;
pub mod var_store;

pub use init::{init, Init};
pub use linear::{linear, Linear, LinearConfig};
pub use var_store::VarStore;
