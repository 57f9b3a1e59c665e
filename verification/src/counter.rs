//! The count of background write units that are in flight.
//!
//! A write unit is in flight from the moment it is scheduled until it has
//! ended, whether it succeeded or failed. The counter goes up by one
//! immediately before a unit is handed to the worker pool and down by one
//! immediately after the unit's last side effect. Several workers end their
//! units concurrently with the driver, so the caller keeps the counter behind
//! a lock; the counter itself is a plain value whose transitions are stated
//! here.

use vstd::prelude::*;

verus! {

/// How many write units have begun and not yet ended.
#[derive(Debug)]
pub struct InFlight {
    count: usize,
}

impl View for InFlight {
    type V = nat;

    closed spec fn view(&self) -> nat {
        self.count as nat
    }
}

/// The count once one more unit has begun.
pub open spec fn after_begin(count: nat) -> nat {
    count + 1
}

/// The count once one unit has ended. It never goes below zero.
pub open spec fn after_end(count: nat) -> nat {
    if count > 0 {
        (count - 1) as nat
    } else {
        0
    }
}

impl InFlight {
    /// A counter with no unit in flight.
    pub fn new() -> (r: InFlight)
        ensures
            r@ == 0,
    {
        InFlight { count: 0 }
    }

    /// The number of units in flight.
    pub fn get(&self) -> (r: usize)
        ensures
            r == self@,
    {
        self.count
    }

    /// Whether no unit is in flight.
    pub fn is_idle(&self) -> (r: bool)
        ensures
            r == (self@ == 0),
    {
        self.count == 0
    }

    /// Records that a unit is about to be scheduled. Returns `false`, and
    /// leaves the counter as it is, only when the count cannot go up any
    /// further; the unit must then not be scheduled.
    pub fn begin(&mut self) -> (begun: bool)
        ensures
            begun == (old(self)@ < usize::MAX),
            begun ==> final(self)@ == after_begin(old(self)@),
            !begun ==> final(self)@ == old(self)@,
    {
        if self.count < usize::MAX {
            self.count = self.count + 1;
            true
        } else {
            false
        }
    }

    /// Records that a unit has ended. Returns `false`, and leaves the counter
    /// at zero, when no unit was in flight.
    pub fn end(&mut self) -> (ended: bool)
        ensures
            ended == (old(self)@ > 0),
            final(self)@ == after_end(old(self)@),
    {
        if self.count > 0 {
            self.count = self.count - 1;
            true
        } else {
            false
        }
    }
}

/// One step in the life of a write unit, as the counter sees it. Units are
/// told apart by a number.
pub enum UnitEvent {
    /// The unit was scheduled.
    Begin(nat),
    /// The unit ended, in success or in failure.
    End(nat),
}

/// The units that have begun and not ended after `trace`.
pub open spec fn live_units(trace: Seq<UnitEvent>) -> Set<nat>
    decreases trace.len(),
{
    if trace.len() == 0 {
        Set::empty()
    } else {
        let before = live_units(trace.drop_last());
        match trace.last() {
            UnitEvent::Begin(unit) => before.insert(unit),
            UnitEvent::End(unit) => before.remove(unit),
        }
    }
}

/// The counter's value after `trace`, starting from zero.
pub open spec fn count_after(trace: Seq<UnitEvent>) -> nat
    decreases trace.len(),
{
    if trace.len() == 0 {
        0
    } else {
        let before = count_after(trace.drop_last());
        match trace.last() {
            UnitEvent::Begin(_) => after_begin(before),
            UnitEvent::End(_) => after_end(before),
        }
    }
}

/// A trace follows the discipline when every unit begins while it is not in
/// flight and ends only while it is.
pub open spec fn disciplined(trace: Seq<UnitEvent>) -> bool {
    forall|i: int|
        0 <= i < trace.len() ==> match #[trigger] trace[i] {
            UnitEvent::Begin(unit) => !live_units(trace.take(i)).contains(unit),
            UnitEvent::End(unit) => live_units(trace.take(i)).contains(unit),
        }
}

/// Every prefix of a disciplined trace is disciplined, so whatever holds at
/// the end of such a trace holds at each moment the counter is read.
pub proof fn lemma_prefix_disciplined(trace: Seq<UnitEvent>, n: int)
    requires
        disciplined(trace),
        0 <= n <= trace.len(),
    ensures
        disciplined(trace.take(n)),
{
    let prefix = trace.take(n);
    assert forall|i: int| 0 <= i < prefix.len() implies match #[trigger] prefix[i] {
        UnitEvent::Begin(unit) => !live_units(prefix.take(i)).contains(unit),
        UnitEvent::End(unit) => live_units(prefix.take(i)).contains(unit),
    } by {
        assert(prefix[i] == trace[i]);
        assert(prefix.take(i) =~= trace.take(i));
    }
}

/// Under the discipline the counter equals the number of units in flight.
/// It is therefore zero exactly when no unit is in flight: it never reads
/// zero while a scheduled unit has yet to end, and it always returns to zero
/// once all of them have.
pub proof fn lemma_count_is_live_units(trace: Seq<UnitEvent>)
    requires
        disciplined(trace),
    ensures
        live_units(trace).finite(),
        count_after(trace) == live_units(trace).len(),
        count_after(trace) == 0 <==> live_units(trace) =~= Set::<nat>::empty(),
    decreases trace.len(),
{
    if trace.len() > 0 {
        let n = trace.len() - 1;
        lemma_prefix_disciplined(trace, n);
        assert(trace.take(n) =~= trace.drop_last());
        lemma_count_is_live_units(trace.drop_last());
        assert(trace[n] == trace.last());
    }
    if live_units(trace).len() == 0 {
        live_units(trace).lemma_len0_is_empty();
    }
}

} // verus!
