//! Client-side codec for a router-management protocol that exchanges
//! commands and replies as sentences of length-prefixed binary words over
//! a duplex byte stream.
//!
//! The crate covers the framing layer: the five-tier variable-width length
//! encoding for words, serialization of sentences to wire bytes, the
//! incremental deserializer that reassembles sentences from arbitrarily
//! fragmented input, and the transport discipline (partial writes close the
//! connection, a stream that ends mid-sentence is reported as truncated).
//! The socket itself is owned by the caller; this crate works on plain bytes.

pub mod error;
pub mod length;
pub mod sentence;
pub mod stream;
pub mod transport;
pub mod word;
