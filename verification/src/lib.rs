//! Declarative management of Discord roles and channels.
//!
//! A definition says which roles and channels a guild should have, a state
//! file says which Discord objects they are bound to, and a catalog says what
//! the guild looks like. Everything between those values is decided here.

pub mod adapter;
pub mod apply;
pub mod bind;
pub mod configuration;
pub mod confirmation;
pub mod domain;
pub mod export;
pub mod guild_lock;
pub mod ids;
pub mod ordered;
pub mod plan;
pub mod port;
pub mod resource;
pub mod service;
pub mod text;
pub mod value;
