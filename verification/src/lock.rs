//! The lock through which one transmission at a time gets the device.
//!
//! A transmission asks for the device before its first call and gives it
//! back after its last. The lock refuses it while another transmission has
//! it, so the calls of two transmissions on one device never mix.

use vstd::prelude::*;
use crate::key::RunGroup;
use crate::script::is_key_call;
use crate::transmission::{Event, Phase};

verus! {

/// The lock of one device: taken or free.
#[derive(Debug)]
pub struct DeviceLock {
    busy: bool,
}

impl View for DeviceLock {
    type V = bool;

    closed spec fn view(&self) -> bool {
        self.busy
    }
}

impl DeviceLock {
    /// A lock that is free.
    pub fn new() -> (lock: DeviceLock)
        ensures
            !lock@,
    {
        DeviceLock { busy: false }
    }

    /// Whether a transmission has the device.
    pub fn is_busy(&self) -> (busy: bool)
        ensures
            busy == self@,
    {
        self.busy
    }

    /// Carries out the action `Acquire`: the device is granted if it is
    /// free, and refused if it is taken.
    pub fn acquire(&mut self) -> (event: Event)
        ensures
            event == if old(self)@ {
                Event::Failed
            } else {
                Event::Completed
            },
            grants(old(self)@, Phase::Acquiring, event),
            final(self)@ == busy_after(old(self)@, Phase::Acquiring, event),
            final(self)@,
    {
        if self.busy {
            Event::Failed
        } else {
            self.busy = true;
            Event::Completed
        }
    }

    /// Carries out the action `Release`: the device is free again.
    pub fn release(&mut self) -> (event: Event)
        ensures
            event == Event::Completed,
            final(self)@ == busy_after(old(self)@, Phase::Releasing(true), event),
            !final(self)@,
    {
        self.busy = false;
        Event::Completed
    }
}

impl Phase {
    /// Whether a transmission in this phase has the device: from the grant
    /// until the release has been carried out.
    pub open spec fn holds(self) -> bool {
        match self {
            Phase::Idle | Phase::Acquiring | Phase::Done(_) => false,
            _ => true,
        }
    }
}

/// Whether `event` may be reported to a transmission in `phase` at a lock
/// that is busy or not: the device is granted only while it is free.
pub open spec fn grants(busy: bool, phase: Phase, event: Event) -> bool {
    phase == Phase::Acquiring && event == Event::Completed ==> !busy
}

/// Whether the lock is busy after `event` was reported to a transmission
/// in `phase`: a grant takes the lock, a release that was carried out
/// frees it, and nothing else touches it.
pub open spec fn busy_after(busy: bool, phase: Phase, event: Event) -> bool {
    match phase {
        Phase::Acquiring => busy || event == Event::Completed,
        Phase::Releasing(_) => busy && event == Event::Start,
        _ => busy,
    }
}

/// The lock is busy exactly while one of two transmissions has the device,
/// and they never have it both.
pub open spec fn one_holder(busy: bool, first: Phase, second: Phase) -> bool {
    &&& busy == (first.holds() || second.holds())
    &&& !(first.holds() && second.holds())
}

/// Two transmissions at one lock never have the device at the same time:
/// whichever of them takes a step, and whatever it is told, one holder at
/// most is left. The device is called by a transmission that has it and by
/// no other, so the calls of the two never mix.
pub proof fn lemma_one_holder(
    runs: Seq<RunGroup>,
    progress: bool,
    busy: bool,
    moving: Phase,
    other: Phase,
    event: Event,
)
    requires
        one_holder(busy, moving, other),
        grants(busy, moving, event),
    ensures
        one_holder(
            busy_after(busy, moving, event),
            moving.after(runs, progress, event),
            other,
        ),
        one_holder(
            busy_after(busy, moving, event),
            other,
            moving.after(runs, progress, event),
        ),
        forall|phase: Phase|
            phase.pending(runs) is Some && is_key_call(phase.pending(runs)->Some_0)
                ==> #[trigger] phase.holds(),
{
}

} // verus!
