//! What lives in a zone.

pub mod enemy;
pub mod entity;
pub mod player;
