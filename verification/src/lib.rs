//! Transport layer of a debugger-control protocol.
//!
//! The crate turns a raw byte stream into discrete, typed messages and back.
//! Inbound bytes are split into frames delimited by a `Content-Length` header
//! block, decoded as UTF-8 JSON and mapped to typed requests. Outbound
//! messages are wrapped in an envelope that carries a strictly increasing
//! sequence number, serialized, and written as one frame under a lock, so
//! that concurrent producers never interleave the bytes of two frames.

pub mod codec;
pub mod frame;
pub mod io;
pub mod json;
pub mod messages;
pub mod server;
