//! Roles: what differs, what shall be created, and the plan of it all.

pub mod application;
pub mod apply;
pub mod attributes;
pub mod effects;
pub mod feasibility;
pub mod laws;
pub mod order;
pub mod order_laws;
pub mod plan;
pub mod requests;
