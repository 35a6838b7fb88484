use piano_monitor::event::MidiEvent;
use piano_monitor::queue::EventQueue;

#[test]
fn single_producer_order_is_preserved() {
    // Events sent as [e1, e2, e3] are drained as [e1, e2, e3].
    let e1 = MidiEvent::NoteOn { channel: 0, key: 60, velocity: 100 };
    let e2 = MidiEvent::ControlChange { channel: 0, controller: 7, value: 64 };
    let e3 = MidiEvent::NoteOff { channel: 0, key: 60 };
    let mut q = EventQueue::new();
    q.send(e1);
    q.send(e2);
    q.send(e3);
    let drained = q.drain_available();
    assert_eq!(drained, vec![e1, e2, e3]);
}

#[test]
fn drain_leaves_the_queue_empty() {
    let mut q = EventQueue::new();
    q.send(MidiEvent::ProgramChange { channel: 3, program: 5 });
    assert_eq!(q.len(), 1);
    let first = q.drain_available();
    assert_eq!(first.len(), 1);
    assert_eq!(q.len(), 0);
    let second = q.drain_available();
    assert!(second.is_empty());
}

#[test]
fn drain_of_a_fresh_queue_is_empty_and_does_not_block() {
    let mut q = EventQueue::new();
    assert!(q.drain_available().is_empty());
}

#[test]
fn sends_after_a_drain_queue_up_again() {
    let e1 = MidiEvent::NoteOn { channel: 1, key: 50, velocity: 10 };
    let e2 = MidiEvent::NoteOff { channel: 1, key: 50 };
    let mut q = EventQueue::new();
    q.send(e1);
    let _ = q.drain_available();
    q.send(e2);
    assert_eq!(q.drain_available(), vec![e2]);
}
