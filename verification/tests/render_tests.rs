use piano_monitor::engine::ScriptedEngine;
use piano_monitor::engine::StereoFrame;
use piano_monitor::event::MidiEvent;
use piano_monitor::queue::EventQueue;
use piano_monitor::render::render_block;

fn script(frames: &[(i16, i16)]) -> Vec<StereoFrame> {
    frames.iter().map(|&(left, right)| StereoFrame { left, right }).collect()
}

#[test]
fn stereo_buffer_filled_and_engine_queried_once_per_frame() {
    // N = 4 frames, C = 2 channels: all N*C samples written, exactly N reads.
    let mut eng = ScriptedEngine::new(script(&[(1, -1), (2, -2), (3, -3), (4, -4)]));
    let mut q = EventQueue::new();
    let mut out: Vec<i16> = vec![99; 8];
    render_block(&mut eng, &mut q, &mut out, 2);
    assert_eq!(out, vec![1, -1, 2, -2, 3, -3, 4, -4]);
    assert_eq!(eng.reads(), 4);
}

#[test]
fn mono_buffer_takes_left_samples_only() {
    let mut eng = ScriptedEngine::new(script(&[(5, -5), (6, -6), (7, -7)]));
    let mut q = EventQueue::new();
    let mut out: Vec<i16> = vec![99; 3];
    render_block(&mut eng, &mut q, &mut out, 1);
    assert_eq!(out, vec![5, 6, 7]);
    assert_eq!(eng.reads(), 3);
}

#[test]
fn channels_past_the_second_are_left_untouched() {
    let mut eng = ScriptedEngine::new(script(&[(1, 2), (3, 4)]));
    let mut q = EventQueue::new();
    let mut out: Vec<i16> = vec![99; 8];
    render_block(&mut eng, &mut q, &mut out, 4);
    assert_eq!(out, vec![1, 2, 99, 99, 3, 4, 99, 99]);
    assert_eq!(eng.reads(), 2);
}

#[test]
fn script_exhaustion_renders_silence() {
    let mut eng = ScriptedEngine::new(script(&[(8, 9)]));
    let mut q = EventQueue::new();
    let mut out: Vec<i16> = vec![99; 6];
    render_block(&mut eng, &mut q, &mut out, 2);
    assert_eq!(out, vec![8, 9, 0, 0, 0, 0]);
    assert_eq!(eng.reads(), 3);
}

#[test]
fn queued_events_reach_the_engine_in_drained_order() {
    let e1 = MidiEvent::NoteOn { channel: 0, key: 60, velocity: 90 };
    let e2 = MidiEvent::PitchBend { channel: 0, value: 8192 };
    let e3 = MidiEvent::NoteOff { channel: 0, key: 60 };
    let mut eng = ScriptedEngine::new(script(&[]));
    let mut q = EventQueue::new();
    q.send(e1);
    q.send(e2);
    q.send(e3);
    let mut out: Vec<i16> = vec![0; 4];
    let accepted = render_block(&mut eng, &mut q, &mut out, 2);
    assert_eq!(accepted, vec![true, true, true]);
    assert_eq!(eng.events().as_slice(), &[e1, e2, e3]);
    // The queue was fully drained by the pass.
    assert!(q.drain_available().is_empty());
}

#[test]
fn empty_buffer_needs_no_frames() {
    let mut eng = ScriptedEngine::new(script(&[(1, 1)]));
    let mut q = EventQueue::new();
    let mut out: Vec<i16> = Vec::new();
    render_block(&mut eng, &mut q, &mut out, 2);
    assert_eq!(eng.reads(), 0);
    assert!(out.is_empty());
}
