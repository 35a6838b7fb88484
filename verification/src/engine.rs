//! The synthesis-engine boundary, as the render loop sees it.

use vstd::prelude::*;

use crate::event::MidiEvent;

verus! {

/// One instant of stereo audio, as signed 16-bit samples.
#[derive(Clone, Copy, Debug, PartialEq, Eq, Structural)]
pub struct StereoFrame {
    pub left: i16,
    pub right: i16,
}

/// A frame of silence.
pub fn silence() -> (f: StereoFrame)
    ensures
        f == (StereoFrame { left: 0, right: 0 }),
{
    StereoFrame { left: 0, right: 0 }
}

/// What the render loop asks of a synthesis engine: take decoded events
/// one at a time (fire and forget; the engine may refuse one), and hand
/// out one stereo frame per request.
///
/// The specification models an engine by the sequence of events it has
/// accepted so far, the number of frames it has handed out, and a frame
/// schedule `frame_at` fixing what each request yields.
pub trait SynthesisEngine: Sized {
    /// The events accepted so far, in arrival order.
    spec fn received(&self) -> Seq<MidiEvent>;

    /// How many frames have been handed out so far.
    spec fn frames_read(&self) -> nat;

    /// The frame handed out by request number `n`.
    spec fn frame_at(&self, n: nat) -> StereoFrame;

    /// Offer one event. The engine either accepts it, appending it to
    /// `received`, or refuses it and keeps `received` unchanged; neither
    /// outcome disturbs the frame schedule.
    fn send_event(&mut self, e: MidiEvent) -> (ok: bool)
        ensures
            final(self).frames_read() == old(self).frames_read(),
            forall|n: nat| final(self).frame_at(n) == old(self).frame_at(n),
            ok ==> final(self).received() == old(self).received().push(e),
            !ok ==> final(self).received() == old(self).received(),
    ;

    /// Hand out the next stereo frame, advancing the read count by one.
    fn read_next(&mut self) -> (f: StereoFrame)
        ensures
            final(self).frames_read() == old(self).frames_read() + 1,
            final(self).received() == old(self).received(),
            forall|n: nat| final(self).frame_at(n) == old(self).frame_at(n),
            f == old(self).frame_at(old(self).frames_read()),
    ;
}

/// A scripted engine: plays back a fixed list of frames, silence once
/// the script is exhausted, and accepts every event. It stands in for a
/// real synthesizer when the render logic is exercised on its own.
pub struct ScriptedEngine {
    script: Vec<StereoFrame>,
    handed_out: Vec<StereoFrame>,
    accepted_events: Vec<MidiEvent>,
}

impl SynthesisEngine for ScriptedEngine {
    closed spec fn received(&self) -> Seq<MidiEvent> {
        self.accepted_events@
    }

    closed spec fn frames_read(&self) -> nat {
        self.handed_out@.len()
    }

    closed spec fn frame_at(&self, n: nat) -> StereoFrame {
        if n < self.script@.len() {
            self.script@[n as int]
        } else {
            StereoFrame { left: 0, right: 0 }
        }
    }

    fn send_event(&mut self, e: MidiEvent) -> (ok: bool) {
        self.accepted_events.push(e);
        true
    }

    fn read_next(&mut self) -> (f: StereoFrame) {
        let n = self.handed_out.len();
        let f = if n < self.script.len() {
            self.script[n]
        } else {
            silence()
        };
        self.handed_out.push(f);
        f
    }
}

impl ScriptedEngine {
    /// A fresh engine that will play back `script`, then silence.
    pub fn new(script: Vec<StereoFrame>) -> (e: Self)
        ensures
            e.received() == Seq::<MidiEvent>::empty(),
            e.frames_read() == 0,
            forall|n: nat|
                e.frame_at(n) == if n < script@.len() {
                    script@[n as int]
                } else {
                    (StereoFrame { left: 0, right: 0 })
                },
    {
        ScriptedEngine { script, handed_out: Vec::new(), accepted_events: Vec::new() }
    }

    /// How many frames have been handed out, as a runtime value.
    pub fn reads(&self) -> (n: usize)
        ensures
            n == self.frames_read(),
    {
        self.handed_out.len()
    }

    /// The events accepted so far, as a runtime value.
    pub fn events(&self) -> (evs: &Vec<MidiEvent>)
        ensures
            evs@ == self.received(),
    {
        &self.accepted_events
    }
}

} // verus!
