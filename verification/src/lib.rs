//! Serial framing protocol engine: a reliable, ordered message layer for
//! unreliable octet streams.
//!
//! - [`crc`]: the 16-bit checksum.
//! - [`packet`]: frames and errors.
//! - [`wire`]: the wire image of a frame.
//! - [`codec`]: the framer, with what holds of it in [`codec_laws`].
//! - [`history`]: the bounded transmit history.
//! - [`session`]: the session engine, with what holds of it in
//!   [`session_laws`].
//!
//! The engine performs no input or output: the host feeds it octets and
//! payloads and carries out what it returns.

pub mod codec;
pub mod codec_laws;
pub mod crc;
pub mod history;
pub mod packet;
pub mod session;
pub mod session_laws;
pub mod wire;

pub use codec::Codec;
pub use history::History;
pub use packet::{SfpError, SfpPacket, SfpResult};
pub use session::{ConnectState, Context, Reaction};
