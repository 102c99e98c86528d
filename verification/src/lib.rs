//! A minimal RESP (REdis Serialization Protocol) core: a line-oriented
//! decoder, an encoder, an in-memory key/value store with lazy expiry,
//! and a command dispatcher for `PING`, `SET`, `GET` and `ECHO`.
//!
//! Transport and concurrency (the TCP listener, one task per connection,
//! the lock around the store) belong to the embedding program; this crate
//! holds the logic that runs between reading a frame and writing the
//! response.

pub mod cache_store;
pub mod codec;
pub mod connection;
pub mod model;
pub mod text;
