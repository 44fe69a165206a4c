//! A real-time relay that keeps chat rooms live: it tracks which members hold
//! an open connection, fans persisted messages out to the other members, and
//! buffers messages for members who are away.

pub mod channel;
pub mod registry;
pub mod laws;
pub mod connection;
pub mod presence;
pub mod models;
pub mod compiler;
