//! The tick engine of a single game zone: the connection table, the
//! commands that packet handling defers, the staging of joins and leaves,
//! and the bookkeeping of each connection's transport.
//!
//! Nothing here touches a socket. The caller performs every read, write and
//! accept, and hands the outcome to the zone as a plain value.

pub mod codec;
pub mod entity;
pub mod game;
pub mod proto;
pub mod wire;
