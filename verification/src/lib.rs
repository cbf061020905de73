//! A layered key-value store that models nested lexical scopes.
//!
//! Levels live in an [`Arena`]; a [`ChainMap`] is a handle to one level.
//! Lookups walk from a handle's level outward, towards the root. Writes go
//! to one level, subject to that level's lock and to the write-protection
//! of the levels that the walk passes.

pub mod arena;
pub mod chain;
pub mod error;
pub mod hashmap_ops;
pub mod laws;
pub mod model;



pub use arena::Arena;
pub use chain::ChainMap;
pub use error::ChainError;
