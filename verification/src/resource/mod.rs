//! The differences between what a guild has and what it should have.

pub mod change;
pub mod channel;
pub mod role;
pub mod sorting;
pub mod standing;
