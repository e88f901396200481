//! Networking core of a distributed actor system: framing and batching of
//! actor messages between a fixed set of peers, and the turn protocol that
//! keeps the peers within a bounded distance of each other.
pub mod connection;
pub mod dispatch;
pub mod error;
pub mod id;
pub mod inbox;
pub mod networking;
pub mod protocol;
pub mod text;
pub mod wire;
