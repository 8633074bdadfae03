//! Bookkeeping for the entities of a simulated 2D world.
//!
//! The registry in [`world`] binds entity identities to the tokens that a rigid-body
//! kernel issued for their bodies and colliders, keeps its derived indexes consistent,
//! and says which kernel operations each lifecycle event and each tick calls for.

pub mod color;
pub mod entity;
pub mod error;
pub mod identity;
pub mod kernel;
pub mod messages;
pub mod model;
pub mod movement;
pub mod world;
pub mod worldgen;
