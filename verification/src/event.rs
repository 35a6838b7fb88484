//! The structured MIDI event type shared by every component.

use vstd::prelude::*;

verus! {

/// One decoded MIDI channel-voice message.
///
/// Every numeric field is meant to fit its MIDI bit width: channels are
/// 4-bit, data fields 7-bit, and a pitch-bend value 14-bit. The decoder
/// only ever produces events satisfying [`MidiEvent::wf`].
#[allow(inconsistent_fields)]
#[derive(Clone, Copy, Debug, PartialEq, Eq, Structural)]
pub enum MidiEvent {
    NoteOn { channel: u8, key: u8, velocity: u8 },
    NoteOff { channel: u8, key: u8 },
    ControlChange { channel: u8, controller: u8, value: u8 },
    ProgramChange { channel: u8, program: u8 },
    PitchBend { channel: u8, value: u16 },
}

impl MidiEvent {
    /// Well-formedness: each field fits its MIDI bit width.
    pub open spec fn wf(self) -> bool {
        match self {
            MidiEvent::NoteOn { channel, key, velocity } =>
                channel < 16 && key < 128 && velocity < 128,
            MidiEvent::NoteOff { channel, key } =>
                channel < 16 && key < 128,
            MidiEvent::ControlChange { channel, controller, value } =>
                channel < 16 && controller < 128 && value < 128,
            MidiEvent::ProgramChange { channel, program } =>
                channel < 16 && program < 128,
            MidiEvent::PitchBend { channel, value } =>
                channel < 16 && value < 16384,
        }
    }
}

} // verus!
