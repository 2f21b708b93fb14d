//! What the transport layer shares with the engine.

pub mod server;
