//! A recursive-style DNS forwarder core with a durable fallback cache.
//!
//! The crate holds the pure logic of the forwarder: parsing of upstream
//! endpoint specifications, classification of resource records into the
//! response sections with TTL rewriting, the binary codec for the cached
//! record blobs, and the per-request decision machine that chooses between
//! a fresh answer, a negative answer, a cache fallback and a failure reply.
//! Listeners, the upstream resolver and the database live outside and hand
//! this crate plain values.

use vstd::prelude::*;

pub mod codec;
pub mod handler;
pub mod records;
pub mod text;
pub mod upstream;

verus! {

/// Transport used to reach an upstream resolver.
#[derive(Clone, Copy, Debug, PartialEq, Eq, Structural)]
pub enum Protocol {
    Udp,
    Tcp,
}

} // verus!
