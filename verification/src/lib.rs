//! Protocol engine for the DPS-150 bench power supply: command framing,
//! stream decoding with resynchronisation, and the telemetry snapshot.

pub mod codec;
pub mod controller;
pub mod decoder;
pub mod field;
pub mod frame;
pub mod laws;
pub mod state;
