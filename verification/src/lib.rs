//! A software-defined CAN 2.0A/B bus controller: a bit-level protocol engine
//! that decodes and encodes CAN frames one sampled bus bit at a time.
//!
//! The engine is split into the classic CAN building blocks: the stuff codec,
//! the 15-bit CRC unit, a per-bit receive state machine, a transmit path with
//! arbitration-loss detection, a bit timing unit, and a controller context
//! that owns one instance of each and exposes the application surface
//! (`setup`, `start`, `transmit`, `check_transmit`, `get_statistics`, ...).
//!
//! Bus levels are represented as `bool`, with `false` the dominant level
//! (logical 0) and `true` the recessive level (logical 1).

pub mod arb;
pub mod bits;
pub mod controller;
pub mod crc;
pub mod encode;
pub mod frame;
pub mod roundtrip;
pub mod rx;
pub mod stuff;
pub mod timing;
