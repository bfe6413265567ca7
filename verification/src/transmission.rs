//! One transmission as a state machine. The machine does no keying, waiting
//! or reporting of its own: each step names the one action that is due, and
//! the next step is told how that action ended.
//!
//! While the runs are played, a failed action is answered by one more
//! `off()`, whose own outcome is ignored; the runs that remain are given up,
//! the device is released and the transmission ends as failed. The closing
//! `off()` is not repeated when it fails.

use vstd::prelude::*;
use crate::key::{coalesce, coalesced, lemma_coalesced_maximal, maximal, views, RunGroup};
use crate::timing::Signal;

verus! {

/// What the caller is asked to do next.
#[derive(Debug, Clone, Copy, PartialEq, Eq, Structural)]
pub enum Action {
    /// Take the device for this transmission alone. The caller may wait
    /// until the device is free, or refuse while it is taken and report
    /// that the action failed.
    Acquire,
    /// Call `on()` on the device.
    On,
    /// Call `off()` on the device.
    Off,
    /// Suspend the transmission for this many unit durations.
    Sleep(usize),
    /// Advance the progress sink by this many units.
    Advance(usize),
    /// Finalize the progress sink.
    Finish,
    /// Give the device back.
    Release,
}

/// What the caller reports to the machine.
#[derive(Debug, Clone, Copy, PartialEq, Eq, Structural)]
pub enum Event {
    /// The transmission is to begin.
    Start,
    /// The action that was due has been carried out.
    Completed,
    /// The action that was due could not be carried out.
    Failed,
}

/// How a transmission ended.
#[derive(Debug, Clone, Copy, PartialEq, Eq, Structural)]
pub enum Outcome {
    /// Every run was played and the device was switched off, or there was
    /// no run to play.
    Completed,
    /// The device was not granted; it was never touched.
    Rejected,
    /// An action failed after the device had been granted.
    Failed,
}

/// Where a transmission stands. Every phase but `Idle` and `Done` waits for
/// the outcome of one action.
#[derive(Debug, Clone, Copy, PartialEq, Eq, Structural)]
pub enum Phase {
    /// Nothing has been asked for yet.
    Idle,
    /// The device has been asked for.
    Acquiring,
    /// Running: the device call of this run is due.
    Keying(usize),
    /// Running: the delay of this run is due.
    Waiting(usize),
    /// Running: the progress report of this run is due.
    Reporting(usize),
    /// Finishing: the closing `off()` is due.
    Closing,
    /// Finishing: the progress sink is to be finalized.
    Finalizing,
    /// A failure is answered by one more `off()`.
    Recovering,
    /// The device is to be released; the flag says whether all went well.
    Releasing(bool),
    /// The transmission is over.
    Done(Outcome),
}

/// The device call that puts the key into `signal`.
pub open spec fn key_action(signal: Signal) -> Action {
    match signal {
        Signal::On => Action::On,
        Signal::Off => Action::Off,
    }
}

/// The phase after run `index` has been played and reported.
pub open spec fn after_run(runs: Seq<RunGroup>, index: int) -> Phase {
    if index + 1 < runs.len() {
        Phase::Keying((index + 1) as usize)
    } else {
        Phase::Closing
    }
}

impl Phase {
    /// A phase of a transmission of these runs: a run that it names
    /// exists, and the device is asked for only where there is a run.
    pub open spec fn fits(self, runs: Seq<RunGroup>) -> bool {
        match self {
            Phase::Keying(i) | Phase::Waiting(i) | Phase::Reporting(i) => i < runs.len(),
            Phase::Acquiring => runs.len() > 0,
            _ => true,
        }
    }

    /// Whether this phase takes note of `event`: an idle transmission waits
    /// to be started, a finished one for nothing, and every other phase for
    /// the outcome of its action.
    pub open spec fn hears(self, event: Event) -> bool {
        match self {
            Phase::Idle => event == Event::Start,
            Phase::Done(_) => false,
            _ => event != Event::Start,
        }
    }

    /// The action whose outcome this phase waits for.
    pub open spec fn pending(self, runs: Seq<RunGroup>) -> Option<Action> {
        match self {
            Phase::Idle | Phase::Done(_) => None,
            Phase::Acquiring => Some(Action::Acquire),
            Phase::Keying(i) => Some(key_action(runs[i as int].signal)),
            Phase::Waiting(i) => Some(Action::Sleep(runs[i as int].count)),
            Phase::Reporting(i) => Some(Action::Advance(runs[i as int].count)),
            Phase::Closing | Phase::Recovering => Some(Action::Off),
            Phase::Finalizing => Some(Action::Finish),
            Phase::Releasing(_) => Some(Action::Release),
        }
    }

    /// The phase that follows this one on `event`, in a transmission of
    /// `runs` that reports progress if `progress` is set. An event that is
    /// not heard changes nothing.
    pub open spec fn after(self, runs: Seq<RunGroup>, progress: bool, event: Event) -> Phase {
        match (self, event) {
            (Phase::Idle, Event::Start) => if runs.len() == 0 {
                Phase::Done(Outcome::Completed)
            } else {
                Phase::Acquiring
            },
            (Phase::Idle, _) | (Phase::Done(_), _) | (_, Event::Start) => self,
            (Phase::Acquiring, Event::Completed) => Phase::Keying(0),
            (Phase::Acquiring, Event::Failed) => Phase::Done(Outcome::Rejected),
            (Phase::Keying(i), Event::Completed) => Phase::Waiting(i),
            (Phase::Waiting(i), Event::Completed) => if progress {
                Phase::Reporting(i)
            } else {
                after_run(runs, i as int)
            },
            (Phase::Reporting(i), Event::Completed) => after_run(runs, i as int),
            (Phase::Keying(_), Event::Failed)
            | (Phase::Waiting(_), Event::Failed)
            | (Phase::Reporting(_), Event::Failed) => Phase::Recovering,
            (Phase::Closing, Event::Completed) => if progress {
                Phase::Finalizing
            } else {
                Phase::Releasing(true)
            },
            (Phase::Closing, Event::Failed) => Phase::Releasing(false),
            (Phase::Finalizing, Event::Completed) => Phase::Releasing(true),
            (Phase::Finalizing, Event::Failed) => Phase::Releasing(false),
            (Phase::Recovering, _) => Phase::Releasing(false),
            (Phase::Releasing(well), _) => Phase::Done(
                if well {
                    Outcome::Completed
                } else {
                    Outcome::Failed
                },
            ),
        }
    }
}

/// What a transmission is made of.
pub struct TransmissionView {
    /// The runs that it plays.
    pub runs: Seq<RunGroup>,
    /// Whether a progress sink is attached.
    pub progress: bool,
    /// Where it stands.
    pub phase: Phase,
}

/// The transmission of one timing.
pub struct Transmission {
    runs: Vec<RunGroup>,
    progress: bool,
    phase: Phase,
}

impl View for Transmission {
    type V = TransmissionView;

    closed spec fn view(&self) -> TransmissionView {
        TransmissionView { runs: self.runs@, progress: self.progress, phase: self.phase }
    }
}

impl Transmission {
    #[verifier::type_invariant]
    spec fn well_formed(self) -> bool {
        self.phase.fits(self.runs@) && maximal(views(self.runs@))
    }

    /// Coalesces `timing` into its runs, before anything is done with the
    /// device. With `progress` set, the transmission reports to a sink.
    pub fn new(timing: &Vec<Signal>, progress: bool) -> (transmission: Transmission)
        ensures
            views(transmission@.runs) == coalesced(timing@),
            transmission@.progress == progress,
            transmission@.phase == Phase::Idle,
    {
        let runs = coalesce(timing);
        proof {
            lemma_coalesced_maximal(timing@);
        }
        Transmission { runs, progress, phase: Phase::Idle }
    }

    /// The runs that the transmission plays. They are maximal: none is
    /// empty, and no two neighbours share a state.
    pub fn runs(&self) -> (runs: &Vec<RunGroup>)
        ensures
            runs@ == self@.runs,
            maximal(views(runs@)),
    {
        proof {
            use_type_invariant(self);
        }
        &self.runs
    }

    /// Where the transmission stands.
    pub fn phase(&self) -> (phase: Phase)
        ensures
            phase == self@.phase,
            phase.fits(self@.runs),
    {
        proof {
            use_type_invariant(self);
        }
        self.phase
    }

    /// The run that is being played, if one is.
    pub fn current(&self) -> (run: Option<RunGroup>)
        ensures
            run == match self@.phase {
                Phase::Keying(i) | Phase::Waiting(i) | Phase::Reporting(i) => Some(
                    self@.runs[i as int],
                ),
                _ => None,
            },
    {
        proof {
            use_type_invariant(self);
        }
        match self.phase {
            Phase::Keying(i) => Some(self.runs[i]),
            Phase::Waiting(i) => Some(self.runs[i]),
            Phase::Reporting(i) => Some(self.runs[i]),
            _ => None,
        }
    }

    /// How the transmission ended, once it has.
    pub fn outcome(&self) -> (outcome: Option<Outcome>)
        ensures
            outcome == match self@.phase {
                Phase::Done(end) => Some(end),
                _ => None,
            },
    {
        match self.phase {
            Phase::Done(end) => Some(end),
            _ => None,
        }
    }

    /// The action that is due in the present phase.
    pub fn pending(&self) -> (action: Option<Action>)
        ensures
            action == self@.phase.pending(self@.runs),
    {
        proof {
            use_type_invariant(self);
        }
        match self.phase {
            Phase::Idle => None,
            Phase::Done(_) => None,
            Phase::Acquiring => Some(Action::Acquire),
            Phase::Keying(i) => match self.runs[i].signal {
                Signal::On => Some(Action::On),
                Signal::Off => Some(Action::Off),
            },
            Phase::Waiting(i) => Some(Action::Sleep(self.runs[i].count)),
            Phase::Reporting(i) => Some(Action::Advance(self.runs[i].count)),
            Phase::Closing => Some(Action::Off),
            Phase::Recovering => Some(Action::Off),
            Phase::Finalizing => Some(Action::Finish),
            Phase::Releasing(_) => Some(Action::Release),
        }
    }

    /// Takes the transmission one step on: `event` says how the action that
    /// was due has ended, and the result is the action that has become due.
    /// It is `None` once the transmission is over, and on an event that is
    /// not heard.
    pub fn step(&mut self, event: Event) -> (action: Option<Action>)
        ensures
            final(self)@.runs == old(self)@.runs,
            final(self)@.progress == old(self)@.progress,
            final(self)@.phase == old(self)@.phase.after(
                old(self)@.runs,
                old(self)@.progress,
                event,
            ),
            action == if old(self)@.phase.hears(event) {
                final(self)@.phase.pending(final(self)@.runs)
            } else {
                None
            },
    {
        proof {
            use_type_invariant(&*self);
        }
        let heard = match (self.phase, event) {
            (Phase::Idle, Event::Start) => true,
            (Phase::Idle, _) => false,
            (Phase::Done(_), _) => false,
            (_, Event::Start) => false,
            _ => true,
        };
        let next = match (self.phase, event) {
            (Phase::Idle, Event::Start) => if self.runs.len() == 0 {
                Phase::Done(Outcome::Completed)
            } else {
                Phase::Acquiring
            },
            (Phase::Idle, _) => self.phase,
            (Phase::Done(_), _) => self.phase,
            (_, Event::Start) => self.phase,
            (Phase::Acquiring, Event::Completed) => Phase::Keying(0),
            (Phase::Acquiring, Event::Failed) => Phase::Done(Outcome::Rejected),
            (Phase::Keying(i), Event::Completed) => Phase::Waiting(i),
            (Phase::Waiting(i), Event::Completed) => if self.progress {
                Phase::Reporting(i)
            } else {
                self.following(i)
            },
            (Phase::Reporting(i), Event::Completed) => self.following(i),
            (Phase::Keying(_), Event::Failed) => Phase::Recovering,
            (Phase::Waiting(_), Event::Failed) => Phase::Recovering,
            (Phase::Reporting(_), Event::Failed) => Phase::Recovering,
            (Phase::Closing, Event::Completed) => if self.progress {
                Phase::Finalizing
            } else {
                Phase::Releasing(true)
            },
            (Phase::Closing, Event::Failed) => Phase::Releasing(false),
            (Phase::Finalizing, Event::Completed) => Phase::Releasing(true),
            (Phase::Finalizing, Event::Failed) => Phase::Releasing(false),
            (Phase::Recovering, _) => Phase::Releasing(false),
            (Phase::Releasing(well), _) => if well {
                Phase::Done(Outcome::Completed)
            } else {
                Phase::Done(Outcome::Failed)
            },
        };
        self.phase = next;
        if heard {
            self.pending()
        } else {
            None
        }
    }

    /// The phase after run `index` has been played and reported.
    fn following(&self, index: usize) -> (phase: Phase)
        requires
            index < self.runs@.len(),
        ensures
            phase == after_run(self.runs@, index as int),
            phase.fits(self.runs@),
    {
        let count = self.runs.len();
        if index + 1 < count {
            Phase::Keying(index + 1)
        } else {
            Phase::Closing
        }
    }
}

} // verus!
