//! Wire-level machinery of a Language-Server-Protocol-style server:
//! `Content-Length`-framed JSON-RPC 2.0 messages are reassembled from a byte
//! stream, classified, dispatched to a handler registry, and answered with
//! correctly framed replies.
//!
//! Everything here works on plain bytes; reading and writing the actual
//! streams is left to the embedding application.

pub mod digits;
pub mod frame;
pub mod codec;
pub mod dispatch;
pub mod json;
pub mod registry;
pub mod roundtrip;
pub mod writer;
