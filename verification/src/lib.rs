//! Client-side core of the memcached binary wire protocol: packet framing,
//! request encoding, response parsing, typed value transcoding, and
//! deterministic key-to-shard routing.
//!
//! Everything here is pure computation over bytes and plain values; the
//! sockets, connection pools and URL handling live outside this crate's
//! verified surface.

use vstd::prelude::*;

pub mod client;
pub mod code;
pub mod commands;
pub mod connectable;
pub mod decimal;
pub mod error;
pub mod packet;
pub mod value;
pub mod wire;

verus! {

/// The result type of every operation in this crate.
pub type Result<T> = core::result::Result<T, error::MemcachedError>;

} // verus!
