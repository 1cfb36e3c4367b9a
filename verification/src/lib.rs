//! A binary codec: a deterministic big-endian wire format for primitive and
//! container types, a bounded-capacity string, a SHA-256 checksum and a
//! checksum-verified packet envelope.

pub mod checksum;
pub mod codec;
pub mod deserialise;
pub mod endian;
pub mod error;
pub mod fixed_string;
pub mod digits;
pub mod laws;
pub mod non_zero;
pub mod packet;
pub mod serialise;
pub mod strings;
