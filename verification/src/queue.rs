//! The FIFO event queue linking the MIDI side to the render side.

use vstd::prelude::*;

use crate::event::MidiEvent;

verus! {

/// An unbounded FIFO of decoded events, ordered by arrival.
///
/// `send` appends and never fails; `drain_available` hands out everything
/// queued so far, oldest first, and leaves the queue empty. Events pushed
/// in some order are drained in that same order.
pub struct EventQueue {
    items: Vec<MidiEvent>,
}

impl View for EventQueue {
    type V = Seq<MidiEvent>;

    closed spec fn view(&self) -> Seq<MidiEvent> {
        self.items@
    }
}

impl EventQueue {
    /// A fresh, empty queue.
    pub fn new() -> (q: Self)
        ensures
            q@ == Seq::<MidiEvent>::empty(),
    {
        EventQueue { items: Vec::new() }
    }

    /// How many events are queued.
    pub fn len(&self) -> (n: usize)
        ensures
            n == self@.len(),
    {
        self.items.len()
    }

    /// Append one event at the back. Never blocks, never fails.
    pub fn send(&mut self, e: MidiEvent)
        ensures
            final(self)@ == old(self)@.push(e),
    {
        self.items.push(e);
    }

    /// Take every queued event, oldest first; the queue is left empty.
    pub fn drain_available(&mut self) -> (drained: Vec<MidiEvent>)
        ensures
            drained@ == old(self)@,
            final(self)@ == Seq::<MidiEvent>::empty(),
    {
        let mut taken: Vec<MidiEvent> = Vec::new();
        core::mem::swap(&mut taken, &mut self.items);
        taken
    }
}

/// FIFO law: events sent in the order `e1, e2, e3` onto a queue holding
/// `s` stand behind `s`, in that same order, which is the order
/// `drain_available` hands them out in.
pub proof fn lemma_fifo_order(s: Seq<MidiEvent>, e1: MidiEvent, e2: MidiEvent, e3: MidiEvent)
    ensures
        s.push(e1).push(e2).push(e3) == s + seq![e1, e2, e3],
{
    assert(s.push(e1).push(e2).push(e3) =~= s + seq![e1, e2, e3]);
}

} // verus!
