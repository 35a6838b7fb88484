//! The per-device routing step: what a device's input callback does with
//! one raw message.

use vstd::prelude::*;

use crate::decode::decode_midi;
use crate::decode::decode_spec;
use crate::queue::EventQueue;

verus! {

/// Handle one raw message from a device: decode it and, when it is a
/// recognized event, enqueue it; anything else is dropped. Returns
/// whether an event was enqueued. Allocation-light and non-blocking, as
/// a driver callback must be.
pub fn route_message(queue: &mut EventQueue, msg: &[u8]) -> (routed: bool)
    ensures
        routed == (decode_spec(msg@) is Some),
        decode_spec(msg@) matches Some(ev) ==> final(queue)@ == old(queue)@.push(ev),
        decode_spec(msg@) is None ==> final(queue)@ == old(queue)@,
{
    match decode_midi(msg) {
        Some(ev) => {
            queue.send(ev);
            true
        },
        None => false,
    }
}

} // verus!
