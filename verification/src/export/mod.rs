//! Definitions and states that describe a guild as it is.

pub mod channel;
pub mod channel_laws;
pub mod laws;
pub mod marker;
pub mod role;
