use piano_monitor::event::MidiEvent;
use piano_monitor::queue::EventQueue;
use piano_monitor::router::route_message;

#[test]
fn recognized_messages_are_enqueued_in_arrival_order() {
    let mut q = EventQueue::new();
    assert!(route_message(&mut q, &[0x90, 60, 100]));
    assert!(route_message(&mut q, &[0x80, 60, 0]));
    assert_eq!(
        q.drain_available(),
        vec![
            MidiEvent::NoteOn { channel: 0, key: 60, velocity: 100 },
            MidiEvent::NoteOff { channel: 0, key: 60 },
        ]
    );
}

#[test]
fn ignored_messages_leave_the_queue_alone() {
    let mut q = EventQueue::new();
    assert!(!route_message(&mut q, &[0xf0, 1, 2]));
    assert!(!route_message(&mut q, &[]));
    assert!(!route_message(&mut q, &[0x90, 60]));
    assert!(q.drain_available().is_empty());
}
