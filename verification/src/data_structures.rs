//! The byte buffers that hold the leaves.
pub mod column;
pub mod simple_column;
