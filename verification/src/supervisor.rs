//! When the pipeline is done.
//!
//! The pipeline scans once, then drains: tick after tick it retires the
//! entries whose load is ready, until nothing is pending and no write unit
//! is in flight. That is the only way it ends. There is no timeout: an entry
//! whose load never becomes ready keeps the pipeline draining for good.

use crate::counter::{count_after, disciplined, lemma_count_is_live_units, live_units, InFlight, UnitEvent};
use crate::queue::{kept, lemma_retired_iff_ready, stayed, stays_at, LoadQueue};
use vstd::prelude::*;

verus! {

/// Where the pipeline stands.
#[derive(Clone, Copy, Debug, PartialEq, Eq, Structural)]
pub enum Phase {
    /// The input directory is being scanned; no tick has been taken.
    Scanning,
    /// Something is pending or in flight.
    Draining,
    /// Nothing is pending and nothing is in flight. The process ends with
    /// exit code 0 and takes no further tick.
    Done,
}

/// The condition on which the process ends.
pub open spec fn exit_due(pending: nat, in_flight: nat) -> bool {
    pending == 0 && in_flight == 0
}

/// The phase after a tick that leaves `pending` entries in the queue and
/// `in_flight` write units running.
pub open spec fn phase_after(phase: Phase, pending: nat, in_flight: nat) -> Phase {
    if phase == Phase::Done || exit_due(pending, in_flight) {
        Phase::Done
    } else {
        Phase::Draining
    }
}

/// Whether the process is to end now. To be asked at the end of a tick, once
/// every write unit of the tick has been counted.
pub fn should_exit<T>(queue: &LoadQueue<T>, in_flight: &InFlight) -> (exit: bool)
    ensures
        exit == exit_due(queue@.pending.len(), in_flight@),
{
    queue.is_drained() && in_flight.is_idle()
}

/// The phase after a tick, from the phase before it and what the tick left
/// pending and in flight.
pub fn advance(phase: Phase, pending: usize, in_flight: usize) -> (next: Phase)
    ensures
        next == phase_after(phase, pending as nat, in_flight as nat),
{
    match phase {
        Phase::Done => Phase::Done,
        _ => {
            if pending == 0 && in_flight == 0 {
                Phase::Done
            } else {
                Phase::Draining
            }
        },
    }
}

/// The pipeline becomes done on a tick if and only if that tick leaves
/// nothing pending and nothing in flight, and once done it stays done.
pub proof fn lemma_done_iff_drained(phase: Phase, pending: nat, in_flight: nat)
    ensures
        phase != Phase::Done ==> (phase_after(phase, pending, in_flight) == Phase::Done
            <==> exit_due(pending, in_flight)),
        phase == Phase::Done ==> phase_after(phase, pending, in_flight) == Phase::Done,
        phase_after(phase, pending, in_flight) != Phase::Scanning,
{
}

/// With nothing discovered and nothing scheduled, the first tick ends the
/// process.
pub proof fn lemma_empty_input_is_done()
    ensures
        phase_after(Phase::Scanning, 0, count_after(Seq::<UnitEvent>::empty())) == Phase::Done,
{
}

/// Which loads report ready on tick `tick`, where the load of the entry at
/// `i` resolves on tick `due[i]` and stays ready from then on.
pub open spec fn ready_by(due: Seq<nat>, tick: nat) -> Seq<bool> {
    Seq::new(due.len(), |i: int| due[i] <= tick)
}

/// The entries, each told by the tick on which its load resolves, that are
/// still pending after the ticks `0` to `tick`.
pub open spec fn waiting_after(due: Seq<nat>, tick: nat) -> Seq<nat>
    decreases tick,
{
    let before = if tick == 0 {
        due
    } else {
        waiting_after(due, (tick - 1) as nat)
    };
    kept(before, ready_by(before, tick))
}

/// After a tick, what is still pending was discovered at the start and has
/// a load that resolves later.
pub proof fn lemma_waiting_after(due: Seq<nat>, tick: nat)
    ensures
        forall|k: int|
            0 <= k < waiting_after(due, tick).len() ==> (#[trigger] waiting_after(due, tick)[k])
                > tick && due.contains(waiting_after(due, tick)[k]),
    decreases tick,
{
    let before = if tick == 0 {
        due
    } else {
        waiting_after(due, (tick - 1) as nat)
    };
    if tick > 0 {
        lemma_waiting_after(due, (tick - 1) as nat);
    }
    let flags = ready_by(before, tick);
    let after = kept(before, flags);
    lemma_retired_iff_ready(before, flags);
    assert forall|k: int| 0 <= k < after.len() implies (#[trigger] after[k]) > tick
        && due.contains(after[k]) by {
        assert(stayed(before, flags, k));
        let i = choose|i: int| #[trigger]
            stays_at(flags, before.len(), i, k) && before[i] == after[k];
        assert(!flags[i]);
        assert(before[i] > tick);
        if tick > 0 {
            assert(due.contains(before[i]));
        } else {
            assert(due[i] == before[i]);
        }
    }
}

/// Every finite input drains. If the load of every discovered file has
/// resolved by tick `tick`, nothing is pending after that tick; and if every
/// write unit that was scheduled has ended, the counter is at zero, so the
/// pipeline is done.
pub proof fn lemma_reaches_done(due: Seq<nat>, tick: nat, trace: Seq<UnitEvent>)
    requires
        forall|i: int| 0 <= i < due.len() ==> due[i] <= tick,
        disciplined(trace),
        live_units(trace) =~= Set::<nat>::empty(),
    ensures
        waiting_after(due, tick).len() == 0,
        count_after(trace) == 0,
        phase_after(Phase::Draining, waiting_after(due, tick).len(), count_after(trace))
            == Phase::Done,
{
    lemma_waiting_after(due, tick);
    lemma_count_is_live_units(trace);
    let left = waiting_after(due, tick);
    if left.len() > 0 {
        assert(left[0] > tick && due.contains(left[0]));
        let i = choose|i: int| 0 <= i < due.len() && due[i] == left[0];
        assert(due[i] <= tick);
    }
}

} // verus!
