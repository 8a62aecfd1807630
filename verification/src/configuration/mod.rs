//! What a definition and a state file may say, and what they mean.

pub mod acceptance;
pub mod channel;
pub mod composition;
pub mod definition;
pub mod input;
pub mod laws;
pub mod order;
pub mod permission;
pub mod reading;
pub mod report;
pub mod role;
pub mod state;
pub mod validation;
pub mod written;
