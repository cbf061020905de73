//! Why a write was refused.

use vstd::prelude::*;

verus! {

/// The two ways in which a write can be refused.
#[derive(Debug, Clone, Copy, PartialEq, Eq)]
pub enum ChainError {
    /// No level that the update walk may reach binds the key: the walk ran
    /// past the root, or met a write-protected level first.
    KeyNotFound,
    /// The level that the write is aimed at is locked.
    LevelLocked,
}

impl ChainError {
    /// A short description of the refusal.
    pub fn message(&self) -> (text: &'static str)
        ensures
            text@ == match *self {
                ChainError::KeyNotFound => "key does not exist, failed to update"@,
                ChainError::LevelLocked => "level is locked, failed to write"@,
            },
    {
        match self {
            ChainError::KeyNotFound => "key does not exist, failed to update",
            ChainError::LevelLocked => "level is locked, failed to write",
        }
    }
}

} // verus!
