//! An archetype-based, column-oriented entity store.
//!
//! Every record kind is flattened into primitive leaves, and each leaf lives in
//! a byte column of its own, so that one field of every record can be walked
//! contiguously.
pub mod data_structures;
pub mod ecs;
pub mod registry;
pub mod traits;
