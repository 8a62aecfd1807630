//! What Discord says and is told, as plain values.

pub mod channel;
pub mod channel_laws;
pub mod failure;
pub mod laws;
pub mod permission;
pub mod resource;
pub mod role;
pub mod role_laws;
