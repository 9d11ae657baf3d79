//! Decoder for a tag-prefixed binary RPC protocol carried over TCP port 4533,
//! together with the two framing dialects that wrap its messages and the
//! classifier that routes a frame's payload to the decoder.
//!
//! Every executable function in this crate carries a contract that Verus
//! proves. The wire format is written down once, as `spec` functions over
//! byte sequences, in [`serialization::wire`]; what holds of it for every
//! input is proved in [`serialization::laws`], [`serialization::hashing`]
//! and [`serialization::encoding`].
//!
//! The crate reads no socket and prints nothing. A program that captures
//! traffic feeds the payloads of TCP segments to [`framing`], the payloads
//! of the frames it gets back to [`handler`], and shows what comes out.

pub mod encryption;
pub mod framing;
pub mod handler;
pub mod serialization;
pub mod util;
