//! hrpc: a small, bidirectional, binary RPC protocol.
//!
//! Every message travels as a frame `<len><header><method><id><body>`, where
//! `len`, `header`, `method` and `id` are unsigned LEB128 varints, `header`
//! packs the service id and the message type (`service << 2 | typ`), and
//! `len` counts the bytes of `header`, `method`, `id` and `body`.

pub mod varint;
pub mod message;
pub mod decode;
pub mod sessions;
pub mod rpc;
pub mod messages;
pub mod next;
pub mod generator;
pub mod schema;
