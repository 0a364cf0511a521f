//! A minimal in-memory key-value server core speaking a subset of RESP
//! (the Redis serialization protocol).
//!
//! The crate provides the pieces a server loop needs, each with a verified
//! contract: an incremental frame decoder that turns a possibly-fragmented
//! byte stream into commands, a reply encoder that produces byte-exact wire
//! replies, a key-value store with per-entry millisecond expiry, and a
//! dispatcher that drives decoder, store and encoder for one connection.

pub mod clock;
pub mod command;
pub mod dispatch;
pub mod encode;
pub mod laws;
pub mod resp;
pub mod shared;
pub mod store;

use vstd::prelude::*;

verus! {

/// The frame size limit, in bytes: every length value in a frame's headers is
/// capped at this, every length line is capped at a few digits, and every
/// bulk string must end at or before this offset. A frame that would run
/// past it is rejected as oversized, so the decoder asks for more bytes only
/// while the buffer is within a few bytes of this limit; the law
/// `lemma_retained_buffer_bounded` states the bound a connection's buffer
/// never exceeds.
pub const MAX_FRAME_BYTES: usize = 524288;

} // verus!
