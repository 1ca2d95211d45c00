//! The solver's frame timer. The stopwatch itself comes from an outside
//! crate and is opaque here: nothing in the physics depends on what it reads.

use vstd::prelude::*;

verus! {

#[verifier::external_type_specification]
#[verifier::external_body]
pub struct ExStopwatch(stopwatch::Stopwatch);

/// Relies on stopwatch::Stopwatch::new: a stopped stopwatch. What it will
/// read depends on real time, so nothing is claimed of it.
#[verifier::external_body]
pub(crate) fn stopwatch_new() -> (w: stopwatch::Stopwatch) {
    stopwatch::Stopwatch::new()
}

/// Relies on stopwatch::Stopwatch::restart: zero the reading and start
/// counting. The reading is real time, so nothing is claimed of it.
#[verifier::external_body]
pub(crate) fn stopwatch_restart(w: &mut stopwatch::Stopwatch) {
    w.restart()
}

/// Relies on stopwatch::Stopwatch::stop: freeze the reading. The reading is
/// real time, so nothing is claimed of it.
#[verifier::external_body]
pub(crate) fn stopwatch_stop(w: &mut stopwatch::Stopwatch) {
    w.stop()
}

} // verus!
