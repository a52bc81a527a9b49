//! A verified streaming UTF-16 decoder.
//!
//! Bytes arrive in chunks of any size; the decoder resolves the byte order
//! from an optional leading byte-order mark, pairs the bytes into 16-bit code
//! units, validates the units as UTF-16 and returns the decoded text, or an
//! error on malformed input. [`read_to_string`] decodes a complete byte
//! sequence in one call; [`Decoder`] accepts the same bytes incrementally.

pub mod codec;
pub mod decoder;
pub mod laws;

pub use codec::DecodeError;
pub use codec::Endianness;
pub use decoder::Decoder;
pub use decoder::decode_chunks;
pub use decoder::read_to_string;
