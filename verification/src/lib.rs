//! A length-delimited binary message codec for a simplified handshake
//! protocol.
//!
//! Every wire-representable type implements the [`codec::Codec`] contract:
//! an exact specification of its encoding, a specification of what decoding
//! yields from the front of a byte sequence, and proofs that the two are
//! inverses. Decoding is driven by a bounds-checked [`reader::Reader`]
//! cursor; nested length-prefixed structures are decoded from a sub-reader
//! scoped to exactly the declared number of bytes, which makes reading past
//! a declared boundary structurally impossible.

pub mod base;
pub mod codec;
pub mod enums;
pub mod handshake;
pub mod reader;
