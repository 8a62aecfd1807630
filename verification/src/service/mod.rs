//! Roles with a record of what is under way: plans by single attributes, and their
//! application with creations and deletions whose outcome may stay unknown.

pub mod acceptance;
pub mod application;
pub mod apply;
pub mod effects;
pub mod exports;
pub mod feasibility;
pub mod management;
pub mod outcome;
pub mod plan;
pub mod state;
