//! Rules of a small arcade game on a square field: a player collects food
//! and must stay clear of a roaming enemy.
//!
//! Every rule is stated twice: as a mathematical function on a model of the
//! game state, and as executable code proved to compute that function.

pub mod arena;
pub mod chance;
pub mod contact;
pub mod entity;
pub mod grid;
pub mod laws;
pub mod motion;
pub mod world;
