//! A minimal in-memory key-value store spoken over a line-oriented text
//! protocol: a typed value store, a request/reply codec, a per-connection
//! state machine for partial reads and writes, and a connection manager
//! that reconciles closed connections.

pub mod codec;
pub mod conn;
pub mod manager;
pub mod store;
pub mod value;
