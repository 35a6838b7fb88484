//! One pass of the render loop: drain queued events, forward them to the
//! engine, then fill an output buffer frame by frame.

use vstd::prelude::*;

use crate::engine::SynthesisEngine;
use crate::event::MidiEvent;
use crate::queue::EventQueue;

verus! {

/// The subsequence of `events` whose positions `keep` marks true, in
/// their original order.
pub open spec fn mask(events: Seq<MidiEvent>, keep: Seq<bool>) -> Seq<MidiEvent>
    decreases events.len(),
{
    if events.len() == 0 || keep.len() == 0 {
        Seq::empty()
    } else if keep.last() {
        mask(events.drop_last(), keep.drop_last()).push(events.last())
    } else {
        mask(events.drop_last(), keep.drop_last())
    }
}

/// How many frames a buffer of `len` samples at `channels` samples per
/// frame takes: one frame per full chunk, plus one for a trailing
/// partial chunk.
pub open spec fn num_frames(len: nat, channels: nat) -> nat
    recommends
        channels >= 1,
{
    if channels == 0 {
        0
    } else if len % channels == 0 {
        len / channels
    } else {
        len / channels + 1
    }
}

/// Forward events to the engine one by one, in order, fire and forget:
/// a refusal is recorded but neither retried nor allowed to stop the
/// rest. The returned flags say, position by position, which events the
/// engine accepted, and the engine has received exactly those, in order.
pub fn forward_events<E: SynthesisEngine>(engine: &mut E, events: &Vec<MidiEvent>) -> (accepted:
    Vec<bool>)
    ensures
        accepted@.len() == events@.len(),
        final(engine).received() == old(engine).received() + mask(events@, accepted@),
        final(engine).frames_read() == old(engine).frames_read(),
        forall|n: nat| final(engine).frame_at(n) == old(engine).frame_at(n),
{
    let mut accepted: Vec<bool> = Vec::new();
    let mut i: usize = 0;
    proof {
        assert(mask(events@.take(0), accepted@) =~= Seq::<MidiEvent>::empty());
        assert(engine.received() =~= engine.received() + Seq::<MidiEvent>::empty());
    }
    while i < events.len()
        invariant
            i <= events@.len(),
            accepted@.len() == i,
            engine.received() == old(engine).received() + mask(
                events@.take(i as int),
                accepted@,
            ),
            engine.frames_read() == old(engine).frames_read(),
            forall|n: nat| engine.frame_at(n) == old(engine).frame_at(n),
        decreases events@.len() - i,
    {
        let ghost pre = accepted@;
        let ok = engine.send_event(events[i]);
        accepted.push(ok);
        proof {
            let t = events@.take(i + 1);
            assert(t.drop_last() =~= events@.take(i as int));
            assert(accepted@.drop_last() =~= pre);
            assert(t.last() == events@[i as int]);
            if ok {
                assert(old(engine).received() + mask(events@.take(i as int), pre) + seq![
                    events@[i as int],
                ] =~= old(engine).received() + mask(events@.take(i as int), pre).push(
                    events@[i as int],
                ));
            }
        }
        i += 1;
    }
    proof {
        assert(events@.take(events@.len() as int) =~= events@);
    }
    accepted
}

/// A count that steps past `len` by `channels` at a time lands on
/// exactly `num_frames(len, channels)` steps.
proof fn lemma_frame_count(i: int, len: int, channels: int)
    by (nonlinear_arith)
    requires
        channels >= 1,
        0 <= len,
        0 <= i,
        len <= i * channels,
        i >= 1 ==> (i - 1) * channels < len,
    ensures
        i == num_frames(len as nat, channels as nat),
{
}

/// Inside the chunk starting at `base == i * channels`, position `j`
/// sits at offset `j - base` of frame `i`.
proof fn lemma_chunk_position(base: int, i: int, channels: int, j: int)
    requires
        channels >= 1,
        0 <= i,
        base == i * channels,
        base <= j < base + channels,
    ensures
        j % channels == j - base,
        j / channels == i,
{
    vstd::arithmetic::div_mod::lemma_fundamental_div_mod_converse_mod(j, channels, i, j - base);
    vstd::arithmetic::div_mod::lemma_fundamental_div_mod_converse_div(j, channels, i, j - base);
}

/// Fill the whole buffer: one engine frame per chunk of `channels`
/// samples. The first sample of each chunk gets the frame's left
/// sample; the second, where the chunk has one, gets the right sample;
/// samples past the first two are left untouched. The engine is asked
/// for exactly one frame per chunk, a trailing partial chunk included.
pub fn fill_buffer<E: SynthesisEngine>(engine: &mut E, out: &mut Vec<i16>, channels: usize)
    requires
        channels >= 1,
        old(out)@.len() + channels <= usize::MAX,
    ensures
        final(out)@.len() == old(out)@.len(),
        final(engine).received() == old(engine).received(),
        forall|n: nat| final(engine).frame_at(n) == old(engine).frame_at(n),
        final(engine).frames_read() == old(engine).frames_read() + num_frames(
            old(out)@.len(),
            channels as nat,
        ),
        forall|j: int|
            0 <= j < old(out)@.len() && j % (channels as int) == 0 ==> final(out)@[j] == old(
                engine,
            ).frame_at((old(engine).frames_read() + j / (channels as int)) as nat).left,
        forall|j: int|
            0 <= j < old(out)@.len() && j % (channels as int) == 1 ==> final(out)@[j] == old(
                engine,
            ).frame_at((old(engine).frames_read() + j / (channels as int)) as nat).right,
        forall|j: int|
            0 <= j < old(out)@.len() && j % (channels as int) >= 2 ==> final(out)@[j] == old(
                out,
            )@[j],
{
    let len = out.len();
    let ghost fr0 = old(engine).frames_read();
    let mut i: usize = 0;
    let mut base: usize = 0;
    while base < len
        invariant
            channels >= 1,
            len == out@.len(),
            len == old(out)@.len(),
            len + channels <= usize::MAX,
            base == i * channels,
            i >= 1 ==> (i - 1) * channels < len,
            base < len + channels,
            engine.received() == old(engine).received(),
            forall|n: nat| engine.frame_at(n) == old(engine).frame_at(n),
            engine.frames_read() == fr0 + i,
            forall|j: int|
                0 <= j < base && j < len && j % (channels as int) == 0 ==> out@[j] == old(
                    engine,
                ).frame_at((fr0 + j / (channels as int)) as nat).left,
            forall|j: int|
                0 <= j < base && j < len && j % (channels as int) == 1 ==> out@[j] == old(
                    engine,
                ).frame_at((fr0 + j / (channels as int)) as nat).right,
            forall|j: int|
                0 <= j < len && (base <= j || j % (channels as int) >= 2) ==> out@[j] == old(
                    out,
                )@[j],
        decreases len + channels - base,
    {
        let f = engine.read_next();
        proof {
            assert(i * channels + channels == (i + 1) * channels) by (nonlinear_arith);
            assert forall|j: int|
                base <= j < base + channels implies (#[trigger] (j % (channels as int)) == j - base
                && j / (channels as int) == i) by {
                lemma_chunk_position(base as int, i as int, channels as int, j);
            }
            assert(i <= i * channels) by (nonlinear_arith)
                requires
                    channels >= 1,
                    i >= 0,
            ;
        }
        out[base] = f.left;
        if channels > 1 && base + 1 < len {
            out[base + 1] = f.right;
        }
        base = base + channels;
        i = i + 1;
    }
    proof {
        lemma_frame_count(i as int, len as int, channels as int);
    }
}

/// One full pass of the render loop: drain every queued event, forward
/// each in drained order to the engine, then fill the buffer with one
/// engine frame per chunk of `channels` samples. The returned flags say
/// which of the drained events the engine accepted.
pub fn render_block<E: SynthesisEngine>(
    engine: &mut E,
    queue: &mut EventQueue,
    out: &mut Vec<i16>,
    channels: usize,
) -> (accepted: Vec<bool>)
    requires
        channels >= 1,
        old(out)@.len() + channels <= usize::MAX,
    ensures
        final(queue)@ == Seq::<MidiEvent>::empty(),
        accepted@.len() == old(queue)@.len(),
        final(engine).received() == old(engine).received() + mask(old(queue)@, accepted@),
        final(engine).frames_read() == old(engine).frames_read() + num_frames(
            old(out)@.len(),
            channels as nat,
        ),
        final(out)@.len() == old(out)@.len(),
        forall|j: int|
            0 <= j < old(out)@.len() && j % (channels as int) == 0 ==> final(out)@[j] == old(
                engine,
            ).frame_at((old(engine).frames_read() + j / (channels as int)) as nat).left,
        forall|j: int|
            0 <= j < old(out)@.len() && j % (channels as int) == 1 ==> final(out)@[j] == old(
                engine,
            ).frame_at((old(engine).frames_read() + j / (channels as int)) as nat).right,
        forall|j: int|
            0 <= j < old(out)@.len() && j % (channels as int) >= 2 ==> final(out)@[j] == old(
                out,
            )@[j],
{
    let drained = queue.drain_available();
    let accepted = forward_events(engine, &drained);
    fill_buffer(engine, out, channels);
    accepted
}

} // verus!
