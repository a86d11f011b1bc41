//! Archetypes: the columns of one record kind, and the rules that address them.
pub mod archetype;
pub mod component;
pub mod laws;
pub mod tuples;
pub mod signature;
pub mod simple_archetype;
