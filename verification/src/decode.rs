//! Decoding one raw MIDI message into a structured event.

use vstd::prelude::*;

use crate::event::MidiEvent;

verus! {

/// A data byte of a MIDI message: the high bit is clear.
pub open spec fn is_data_byte(b: u8) -> bool {
    b < 128
}

/// What decoding a raw message yields.
///
/// The first byte's high nibble selects the status class and its low
/// nibble the channel. Five classes are recognized; each has a minimum
/// message length (3 bytes, except 2 for program change). A message that
/// is empty, too short for its class, of an unrecognized class (system
/// exclusive, clock, aftertouch, ...), or whose used data bytes have the
/// high bit set, yields no event: such messages are dropped, never
/// buffered. A pitch-bend value is rebuilt from two 7-bit halves, the
/// second byte low and the third byte high.
pub open spec fn decode_spec(msg: Seq<u8>) -> Option<MidiEvent> {
    if msg.len() == 0 {
        None
    } else {
        let channel = (msg[0] & 0x0f) as u8;
        let class = msg[0] & 0xf0;
        if class == 0x80 && msg.len() >= 3 && is_data_byte(msg[1]) {
            Some(MidiEvent::NoteOff { channel, key: msg[1] })
        } else if class == 0x90 && msg.len() >= 3 && is_data_byte(msg[1])
            && is_data_byte(msg[2]) {
            Some(MidiEvent::NoteOn { channel, key: msg[1], velocity: msg[2] })
        } else if class == 0xb0 && msg.len() >= 3 && is_data_byte(msg[1])
            && is_data_byte(msg[2]) {
            Some(MidiEvent::ControlChange { channel, controller: msg[1], value: msg[2] })
        } else if class == 0xc0 && msg.len() >= 2 && is_data_byte(msg[1]) {
            Some(MidiEvent::ProgramChange { channel, program: msg[1] })
        } else if class == 0xe0 && msg.len() >= 3 && is_data_byte(msg[1])
            && is_data_byte(msg[2]) {
            Some(MidiEvent::PitchBend {
                channel,
                value: ((msg[2] as u16) << 7 | msg[1] as u16) as u16,
            })
        } else {
            None
        }
    }
}

/// Decode one raw MIDI message, or drop it.
///
/// Pure and total: any byte sequence is accepted, and unrecognized or
/// malformed input simply yields `None`.
pub fn decode_midi(msg: &[u8]) -> (r: Option<MidiEvent>)
    ensures
        r == decode_spec(msg@),
        r is Some ==> r->0.wf(),
{
    proof {
        lemma_decode_wf(msg@);
    }
    if msg.len() == 0 {
        return None;
    }
    let status = msg[0];
    let channel = status & 0x0f;
    let class = status & 0xf0;
    if class == 0x80 && msg.len() >= 3 && msg[1] < 128 {
        Some(MidiEvent::NoteOff { channel, key: msg[1] })
    } else if class == 0x90 && msg.len() >= 3 && msg[1] < 128 && msg[2] < 128 {
        Some(MidiEvent::NoteOn { channel, key: msg[1], velocity: msg[2] })
    } else if class == 0xb0 && msg.len() >= 3 && msg[1] < 128 && msg[2] < 128 {
        Some(MidiEvent::ControlChange { channel, controller: msg[1], value: msg[2] })
    } else if class == 0xc0 && msg.len() >= 2 && msg[1] < 128 {
        Some(MidiEvent::ProgramChange { channel, program: msg[1] })
    } else if class == 0xe0 && msg.len() >= 3 && msg[1] < 128 && msg[2] < 128 {
        let value = ((msg[2] as u16) << 7) | (msg[1] as u16);
        Some(MidiEvent::PitchBend { channel, value })
    } else {
        None
    }
}

/// The minimum length of a message of each recognized status class:
/// two bytes for program change, three for the rest.
pub open spec fn min_len_for(class: u8) -> nat {
    if class == 0xc0 {
        2
    } else {
        3
    }
}

/// Note On law: for every channel `c` and data bytes `k`, `v` in range,
/// the message `0x9c k v` decodes to exactly that note-on event.
pub proof fn lemma_note_on(c: u8, k: u8, v: u8)
    requires
        c < 16,
        k < 128,
        v < 128,
    ensures
        decode_spec(seq![(0x90 + c) as u8, k, v]) == Some(
            MidiEvent::NoteOn { channel: c, key: k, velocity: v },
        ),
{
    let s = seq![(0x90 + c) as u8, k, v];
    assert(((0x90 + c) as u8) & 0xf0 == 0x90 && ((0x90 + c) as u8) & 0x0f == c)
        by (bit_vector)
        requires
            c < 16,
    ;
    assert(s[0] == (0x90 + c) as u8 && s[1] == k && s[2] == v && s.len() == 3);
}

/// Too-short law: the empty message, and any message shorter than the
/// minimum length of its status class, decodes to nothing.
pub proof fn lemma_short_input(msg: Seq<u8>)
    requires
        msg.len() == 0 || msg.len() < min_len_for(msg[0] & 0xf0),
    ensures
        decode_spec(msg) is None,
{
}

/// Pitch-bend law: `0xEc lo hi` decodes to the 14-bit value
/// `(hi << 7) | lo`, which equals `hi * 128 + lo` and always lies below
/// 16384.
pub proof fn lemma_pitch_bend(c: u8, lo: u8, hi: u8)
    requires
        c < 16,
        lo < 128,
        hi < 128,
    ensures
        ({
            let v = ((hi as u16) << 7 | lo as u16) as u16;
            decode_spec(seq![(0xe0 + c) as u8, lo, hi]) == Some(
                MidiEvent::PitchBend { channel: c, value: v },
            ) && v == hi as u16 * 128 + lo as u16 && v < 16384
        }),
{
    let s = seq![(0xe0 + c) as u8, lo, hi];
    assert(((0xe0 + c) as u8) & 0xf0 == 0xe0 && ((0xe0 + c) as u8) & 0x0f == c)
        by (bit_vector)
        requires
            c < 16,
    ;
    assert(((hi as u16) << 7 | lo as u16) == hi as u16 * 128 + lo as u16 && ((hi as u16) << 7
        | lo as u16) < 16384)
        by (bit_vector)
        requires
            lo < 128,
            hi < 128,
    ;
    assert(s[0] == (0xe0 + c) as u8 && s[1] == lo && s[2] == hi && s.len() == 3);
}

/// Ignored-status law: a message whose status class is none of the five
/// recognized ones (system exclusive, clock, aftertouch, ...) yields no
/// event, of whatever length.
pub proof fn lemma_ignored_status(msg: Seq<u8>)
    requires
        msg.len() > 0,
        msg[0] & 0xf0 != 0x80,
        msg[0] & 0xf0 != 0x90,
        msg[0] & 0xf0 != 0xb0,
        msg[0] & 0xf0 != 0xc0,
        msg[0] & 0xf0 != 0xe0,
    ensures
        decode_spec(msg) is None,
{
}

/// Whatever decoding yields is a well-formed event.
pub proof fn lemma_decode_wf(msg: Seq<u8>)
    ensures
        decode_spec(msg) is Some ==> decode_spec(msg)->0.wf(),
{
    if msg.len() > 0 {
        let status = msg[0];
        assert(status & 0x0f < 16) by (bit_vector);
        if msg.len() >= 3 && is_data_byte(msg[1]) && is_data_byte(msg[2]) {
            let lo = msg[1];
            let hi = msg[2];
            assert(lo < 128 && hi < 128 ==> ((hi as u16) << 7 | lo as u16) < 16384)
                by (bit_vector);
        }
    }
}

} // verus!
