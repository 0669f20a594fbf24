//! One connection: a player, its transport and the commands it deferred.

pub mod cluster;
pub mod command;
