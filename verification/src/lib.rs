//! A run-length codec for byte streams.
//!
//! A stream is framed as a sequence of records, each introduced by one header
//! byte, and closed by a terminator. [`compress`] writes the framing of a byte
//! sequence and [`decompress`] expands a framing back into bytes. What each of
//! them returns is stated over the spec functions [`encode`] and [`decode`],
//! and [`laws`] proves what decoding makes of an encoding.

pub mod decoder;
pub mod encoder;
pub mod format;
pub mod laws;
pub mod scan;
mod wire;

pub use decoder::{decode, decompress, DecodeError};
pub use encoder::{compress, encode, encode_from};
pub use format::{well_framed, Header, LITERAL_FLAG, MAX_COUNT, MIN_RUN, TERMINATOR};
