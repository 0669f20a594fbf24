//! The zone and what it is made of.

pub mod client;
pub mod laws;
pub mod steps;
pub mod tcp_client;
pub mod zone;
pub mod zone_request_chash;
