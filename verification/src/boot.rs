//! The decision taken at each step of waiting for the sound server.

use vstd::prelude::*;

verus! {

/// What the bootstrap should do next while it waits for the sound
/// server to come up.
#[derive(Clone, Copy, Debug, PartialEq, Eq, Structural)]
pub enum BootStep {
    /// The server answers: done, the stream can be opened.
    Ready,
    /// No answer yet and time remains: sleep briefly and probe again.
    Wait,
    /// The deadline passed without an answer: give up and report.
    GiveUp,
}

/// One step of the bootstrap poll: ready as soon as the probe succeeds,
/// given up once more than `timeout_ms` has elapsed, kept waiting
/// otherwise.
pub fn boot_step(server_answers: bool, elapsed_ms: u64, timeout_ms: u64) -> (s: BootStep)
    ensures
        server_answers ==> s == BootStep::Ready,
        !server_answers && elapsed_ms > timeout_ms ==> s == BootStep::GiveUp,
        !server_answers && elapsed_ms <= timeout_ms ==> s == BootStep::Wait,
{
    if server_answers {
        BootStep::Ready
    } else if elapsed_ms > timeout_ms {
        BootStep::GiveUp
    } else {
        BootStep::Wait
    }
}

} // verus!
