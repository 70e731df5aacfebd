//! Core of a serial telemetry receiver: a resynchronizing framing protocol
//! over an unreliable byte stream, with CRC-8 validation, a Q16.15 fixed-point
//! numeric decoding, and a gated publish/subscribe control plane.

pub mod channel;
pub mod codec;
pub mod control;
pub mod crc;
pub mod decoder;
pub mod frame;
pub mod message;
pub mod pipeline;
pub mod record;
