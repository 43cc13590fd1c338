//! Offline reassembly of synthesizer firmware images carried over MIDI.
//!
//! The crate has four main parts:
//! - `sysex`: a streaming detector that finds System Exclusive messages in a
//!   raw byte sequence and reports everything else as structured skip events;
//! - `codec`: the 7-bit packing used to fit 8-bit data into MIDI data bytes;
//! - `block`: the fixed-layout per-block header, its parsing and validation;
//! - `update`: the stateful decoder that assembles the blocks into an image
//!   and checks completeness and checksum;
//! with `opcode` (recognition of the device's SysEx operations), `bitmap`
//! (a packed boolean array) and `bytes` (big-endian field readers)
//! underneath.

pub mod bitmap;
pub mod block;
pub mod bytes;
pub mod codec;
pub mod error;
pub mod opcode;
pub mod sysex;
pub mod update;
