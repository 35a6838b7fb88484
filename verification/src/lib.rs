//! Core logic of a MIDI-keyboard-to-synthesizer bridge.
//!
//! The library holds the verified heart of the system: decoding raw MIDI
//! bytes into structured events, the FIFO event queue that links the MIDI
//! side to the audio side, the render-loop bookkeeping that scatters
//! synthesizer frames into an output buffer, and the reconciliation logic
//! that keeps the set of open device connections in sync with the ports
//! that are physically present.
//!
//! Everything that touches a real device (audio output, MIDI input, the
//! sound server) lives in the surrounding application, which feeds this
//! library plain values and acts on what it returns.

pub mod boot;
pub mod decode;
pub mod engine;
pub mod event;
pub mod monitor;
pub mod queue;
pub mod render;
pub mod router;
