//! What a transmission asks for, taken as a whole: the actions that a
//! sequence of events draws from it, and the script that it follows when
//! nothing fails.

use vstd::prelude::*;
use crate::key::{coalesced, lemma_coalesced_total, total_units, views, RunGroup};
use crate::phrase::words_timing;
use crate::timing::Signal;
use crate::transmission::{key_action, Action, Event, Outcome, Phase};

verus! {

/// The action that one step returns, as a sequence of one or none.
pub open spec fn asked(runs: Seq<RunGroup>, progress: bool, phase: Phase, event: Event) -> Seq<
    Action,
> {
    if phase.hears(event) {
        match phase.after(runs, progress, event).pending(runs) {
            Some(action) => seq![action],
            None => Seq::empty(),
        }
    } else {
        Seq::empty()
    }
}

/// The phase that `events`, taken in order, lead to from `phase`.
pub open spec fn reached(runs: Seq<RunGroup>, progress: bool, phase: Phase, events: Seq<Event>)
    -> Phase
    decreases events.len(),
{
    if events.len() == 0 {
        phase
    } else {
        reached(runs, progress, phase.after(runs, progress, events[0]), events.drop_first())
    }
}

/// The actions that the steps return while `events` are taken in order
/// from `phase`.
pub open spec fn trace(runs: Seq<RunGroup>, progress: bool, phase: Phase, events: Seq<Event>)
    -> Seq<Action>
    decreases events.len(),
{
    if events.len() == 0 {
        Seq::empty()
    } else {
        asked(runs, progress, phase, events[0]) + trace(
            runs,
            progress,
            phase.after(runs, progress, events[0]),
            events.drop_first(),
        )
    }
}

/// `count` actions that were carried out, one after another.
pub open spec fn completed(count: nat) -> Seq<Event> {
    Seq::new(count, |i: int| Event::Completed)
}

/// What one run asks for: the device call, the delay, and the report where
/// a sink is attached.
pub open spec fn run_actions(run: RunGroup, progress: bool) -> Seq<Action> {
    if progress {
        seq![key_action(run.signal), Action::Sleep(run.count), Action::Advance(run.count)]
    } else {
        seq![key_action(run.signal), Action::Sleep(run.count)]
    }
}

/// What the runs from `from` on ask for, in order.
pub open spec fn runs_actions(runs: Seq<RunGroup>, progress: bool, from: int) -> Seq<Action>
    decreases runs.len() - from,
{
    if 0 <= from < runs.len() {
        run_actions(runs[from], progress) + runs_actions(runs, progress, from + 1)
    } else {
        Seq::empty()
    }
}

/// What follows the last run: the closing `off()`, the end of the report
/// where a sink is attached, and the release of the device.
pub open spec fn closing_actions(progress: bool) -> Seq<Action> {
    if progress {
        seq![Action::Off, Action::Finish, Action::Release]
    } else {
        seq![Action::Off, Action::Release]
    }
}

/// Everything that a transmission asks for when nothing fails. Without
/// runs that is nothing at all.
pub open spec fn script(runs: Seq<RunGroup>, progress: bool) -> Seq<Action> {
    if runs.len() == 0 {
        Seq::empty()
    } else {
        seq![Action::Acquire] + runs_actions(runs, progress, 0) + closing_actions(progress)
    }
}

/// What is still to be asked for once the action of `phase` has been
/// carried out, if nothing fails from there on.
pub open spec fn ahead(runs: Seq<RunGroup>, progress: bool, phase: Phase) -> Seq<Action> {
    match phase {
        Phase::Idle | Phase::Done(_) | Phase::Releasing(_) => Seq::empty(),
        Phase::Acquiring => runs_actions(runs, progress, 0) + closing_actions(progress),
        Phase::Keying(i) => run_actions(runs[i as int], progress).skip(1) + runs_actions(
            runs,
            progress,
            i + 1,
        ) + closing_actions(progress),
        Phase::Waiting(i) => run_actions(runs[i as int], progress).skip(2) + runs_actions(
            runs,
            progress,
            i + 1,
        ) + closing_actions(progress),
        Phase::Reporting(i) => runs_actions(runs, progress, i + 1) + closing_actions(progress),
        Phase::Closing => closing_actions(progress).skip(1),
        Phase::Finalizing | Phase::Recovering => seq![Action::Release],
    }
}

/// How a transmission ends from `phase` on if nothing fails any more.
pub open spec fn ending(phase: Phase) -> Outcome {
    match phase {
        Phase::Recovering | Phase::Releasing(false) => Outcome::Failed,
        Phase::Done(end) => end,
        _ => Outcome::Completed,
    }
}

/// From a phase that waits for an action, a transmission in which nothing
/// fails any more asks for exactly what is ahead, and then it is over.
pub proof fn lemma_plays_out(runs: Seq<RunGroup>, progress: bool, phase: Phase)
    requires
        runs.len() <= usize::MAX,
        phase.fits(runs),
        phase != Phase::Idle,
        !(phase is Done),
    ensures
        trace(runs, progress, phase, completed(ahead(runs, progress, phase).len() + 1)) == ahead(
            runs,
            progress,
            phase,
        ),
        reached(runs, progress, phase, completed(ahead(runs, progress, phase).len() + 1))
            == Phase::Done(ending(phase)),
    decreases ahead(runs, progress, phase).len(),
{
    let rest = ahead(runs, progress, phase);
    let events = completed(rest.len() + 1);
    let next = phase.after(runs, progress, Event::Completed);
    assert(events[0] == Event::Completed);
    assert(events.drop_first() =~= completed(rest.len()));
    if next is Done {
        assert(rest.len() == 0);
        assert(completed(0).len() == 0);
        assert(trace(runs, progress, next, completed(0)) =~= Seq::<Action>::empty());
        assert(reached(runs, progress, next, completed(0)) == next);
        assert(trace(runs, progress, phase, events) =~= rest);
    } else {
        let due = next.pending(runs)->Some_0;
        assert(rest =~= seq![due] + ahead(runs, progress, next)) by {
            lemma_ahead_unfolds(runs, progress, phase);
        }
        lemma_plays_out(runs, progress, next);
        assert(trace(runs, progress, phase, events) =~= rest);
    }
}

/// Started and with nothing failing, a transmission asks for its script,
/// action by action, and then it is over.
pub proof fn lemma_follows_script(runs: Seq<RunGroup>, progress: bool)
    requires
        runs.len() <= usize::MAX,
    ensures
        trace(
            runs,
            progress,
            Phase::Idle,
            seq![Event::Start] + completed(script(runs, progress).len()),
        ) == script(runs, progress),
        reached(
            runs,
            progress,
            Phase::Idle,
            seq![Event::Start] + completed(script(runs, progress).len()),
        ) == Phase::Done(Outcome::Completed),
{
    let events = seq![Event::Start] + completed(script(runs, progress).len());
    let next = Phase::Idle.after(runs, progress, Event::Start);
    assert(events[0] == Event::Start);
    assert(events.drop_first() =~= completed(script(runs, progress).len()));
    if runs.len() == 0 {
        assert(completed(0).len() == 0);
        assert(trace(runs, progress, next, completed(0)) =~= Seq::<Action>::empty());
        assert(reached(runs, progress, next, completed(0)) == next);
        assert(trace(runs, progress, Phase::Idle, events) =~= script(runs, progress));
    } else {
        lemma_plays_out(runs, progress, Phase::Acquiring);
        assert(script(runs, progress) =~= seq![Action::Acquire] + ahead(
            runs,
            progress,
            Phase::Acquiring,
        ));
        assert(trace(runs, progress, Phase::Idle, events) =~= script(runs, progress));
    }
}

/// A transmission without runs asks for nothing, whatever it is told.
pub proof fn lemma_nothing_to_play(progress: bool, events: Seq<Event>)
    ensures
        trace(Seq::empty(), progress, Phase::Idle, events) == Seq::<Action>::empty(),
        script(Seq::empty(), progress) == Seq::<Action>::empty(),
    decreases events.len(),
{
    let runs = Seq::<RunGroup>::empty();
    if events.len() > 0 {
        let next = Phase::Idle.after(runs, progress, events[0]);
        if next == Phase::Idle {
            lemma_nothing_to_play(progress, events.drop_first());
        } else {
            lemma_over(runs, progress, next, events.drop_first());
        }
    }
}

/// The transmission of a phrase without words has no run and asks for
/// nothing: the device is never called.
pub proof fn lemma_empty_phrase_is_silent(runs: Seq<RunGroup>, progress: bool, events: Seq<Event>)
    requires
        views(runs) == coalesced(words_timing(Seq::empty())),
    ensures
        runs.len() == 0,
        trace(runs, progress, Phase::Idle, events) == Seq::<Action>::empty(),
{
    assert(words_timing(Seq::empty()) =~= Seq::<Signal>::empty());
    assert(views(runs).len() == 0);
    assert(runs =~= Seq::<RunGroup>::empty());
    lemma_nothing_to_play(progress, events);
}

/// Once the release is due, nothing more is asked for.
pub proof fn lemma_over(runs: Seq<RunGroup>, progress: bool, phase: Phase, events: Seq<Event>)
    requires
        phase is Releasing || phase is Done,
    ensures
        trace(runs, progress, phase, events) == Seq::<Action>::empty(),
    decreases events.len(),
{
    if events.len() > 0 {
        lemma_over(runs, progress, phase.after(runs, progress, events[0]), events.drop_first());
    }
}

/// Whether an action is a call of the device.
pub open spec fn is_key_call(action: Action) -> bool {
    action == Action::On || action == Action::Off
}

/// The device is asked for at most once and before anything else, nothing
/// follows its release, and it is called only after it was asked for.
pub open spec fn exclusive(actions: Seq<Action>) -> bool {
    &&& forall|i: int| 0 < i < actions.len() ==> #[trigger] actions[i] != Action::Acquire
    &&& forall|i: int| 0 <= i < actions.len() - 1 ==> #[trigger] actions[i] != Action::Release
    &&& forall|i: int|
        0 <= i < actions.len() && is_key_call(#[trigger] actions[i]) ==> actions[0]
            == Action::Acquire
}

/// After the start, the device is not asked for again, and nothing
/// follows its release.
proof fn lemma_held_once(runs: Seq<RunGroup>, progress: bool, phase: Phase, events: Seq<Event>)
    requires
        runs.len() <= usize::MAX,
        phase.fits(runs),
        phase != Phase::Idle,
    ensures
        forall|i: int|
            0 <= i < trace(runs, progress, phase, events).len() ==> #[trigger] trace(
                runs,
                progress,
                phase,
                events,
            )[i] != Action::Acquire,
        forall|i: int|
            0 <= i < trace(runs, progress, phase, events).len() - 1 ==> #[trigger] trace(
                runs,
                progress,
                phase,
                events,
            )[i] != Action::Release,
    decreases events.len(),
{
    if events.len() > 0 {
        let next = phase.after(runs, progress, events[0]);
        let first = asked(runs, progress, phase, events[0]);
        let rest = trace(runs, progress, next, events.drop_first());
        if next is Releasing || next is Done {
            lemma_over(runs, progress, next, events.drop_first());
        } else {
            lemma_held_once(runs, progress, next, events.drop_first());
        }
        assert(trace(runs, progress, phase, events) == first + rest);
    }
}

/// Whatever a transmission is told, and whatever fails, it keeps the
/// device to itself: every call of the device comes after the device was
/// asked for and before it is released.
pub proof fn lemma_exclusive(runs: Seq<RunGroup>, progress: bool, events: Seq<Event>)
    requires
        runs.len() <= usize::MAX,
    ensures
        exclusive(trace(runs, progress, Phase::Idle, events)),
    decreases events.len(),
{
    if events.len() > 0 {
        let next = Phase::Idle.after(runs, progress, events[0]);
        let first = asked(runs, progress, Phase::Idle, events[0]);
        let rest = trace(runs, progress, next, events.drop_first());
        assert(trace(runs, progress, Phase::Idle, events) == first + rest);
        if next == Phase::Idle {
            lemma_exclusive(runs, progress, events.drop_first());
            assert(first + rest =~= rest);
        } else if next is Done {
            lemma_over(runs, progress, next, events.drop_first());
        } else {
            lemma_held_once(runs, progress, next, events.drop_first());
            assert(first =~= seq![Action::Acquire]);
        }
    }
}

/// A transmission that is over stays as it ended.
pub proof fn lemma_done_stays(
    runs: Seq<RunGroup>,
    progress: bool,
    end: Outcome,
    events: Seq<Event>,
)
    ensures
        reached(runs, progress, Phase::Done(end), events) == Phase::Done(end),
    decreases events.len(),
{
    if events.len() > 0 {
        lemma_done_stays(runs, progress, end, events.drop_first());
    }
}

/// Between the grant of the device and its release, a transmission cannot
/// end without asking for the release, and it asks for nothing after it.
proof fn lemma_release_last(runs: Seq<RunGroup>, progress: bool, phase: Phase, events: Seq<Event>)
    requires
        runs.len() <= usize::MAX,
        phase.fits(runs),
        phase != Phase::Idle,
        phase != Phase::Acquiring,
        !(phase is Releasing),
        !(phase is Done),
        reached(runs, progress, phase, events) is Done,
    ensures
        trace(runs, progress, phase, events).len() > 0,
        trace(runs, progress, phase, events).last() == Action::Release,
    decreases events.len(),
{
    let next = phase.after(runs, progress, events[0]);
    let first = asked(runs, progress, phase, events[0]);
    let rest = trace(runs, progress, next, events.drop_first());
    assert(trace(runs, progress, phase, events) == first + rest);
    if next is Releasing {
        lemma_over(runs, progress, next, events.drop_first());
        assert(first + rest =~= seq![Action::Release]);
    } else {
        lemma_release_last(runs, progress, next, events.drop_first());
    }
}

/// A transmission that is over has released the device, unless it had no
/// run to play or the device was refused: whatever failed on the way, the
/// last thing that it asked for is the release.
pub proof fn lemma_released(runs: Seq<RunGroup>, progress: bool, events: Seq<Event>)
    requires
        0 < runs.len() <= usize::MAX,
        reached(runs, progress, Phase::Idle, events) is Done,
        reached(runs, progress, Phase::Idle, events) != Phase::Done(Outcome::Rejected),
    ensures
        trace(runs, progress, Phase::Idle, events).len() > 0,
        trace(runs, progress, Phase::Idle, events).last() == Action::Release,
    decreases events.len(),
{
    let next = Phase::Idle.after(runs, progress, events[0]);
    let first = asked(runs, progress, Phase::Idle, events[0]);
    let rest = trace(runs, progress, next, events.drop_first());
    assert(trace(runs, progress, Phase::Idle, events) == first + rest);
    if next == Phase::Idle {
        lemma_released(runs, progress, events.drop_first());
    } else {
        lemma_granted_released(runs, progress, events.drop_first());
    }
}

/// The same, from the moment at which the device has been asked for.
proof fn lemma_granted_released(runs: Seq<RunGroup>, progress: bool, events: Seq<Event>)
    requires
        0 < runs.len() <= usize::MAX,
        reached(runs, progress, Phase::Acquiring, events) is Done,
        reached(runs, progress, Phase::Acquiring, events) != Phase::Done(Outcome::Rejected),
    ensures
        trace(runs, progress, Phase::Acquiring, events).len() > 0,
        trace(runs, progress, Phase::Acquiring, events).last() == Action::Release,
    decreases events.len(),
{
    let next = Phase::Acquiring.after(runs, progress, events[0]);
    let first = asked(runs, progress, Phase::Acquiring, events[0]);
    let rest = trace(runs, progress, next, events.drop_first());
    assert(trace(runs, progress, Phase::Acquiring, events) == first + rest);
    if next == Phase::Acquiring {
        lemma_granted_released(runs, progress, events.drop_first());
    } else if next is Done {
        lemma_done_stays(runs, progress, Outcome::Rejected, events.drop_first());
    } else {
        lemma_release_last(runs, progress, next, events.drop_first());
    }
}

/// Where the device is refused, nothing but the request was ever asked
/// for: the device is never touched.
pub proof fn lemma_rejected(runs: Seq<RunGroup>, progress: bool, events: Seq<Event>)
    requires
        runs.len() > 0,
    ensures
        trace(runs, progress, Phase::Idle, seq![Event::Start, Event::Failed] + events)
            == seq![Action::Acquire],
        reached(runs, progress, Phase::Idle, seq![Event::Start, Event::Failed])
            == Phase::Done(Outcome::Rejected),
{
    let all = seq![Event::Start, Event::Failed] + events;
    let tail = seq![Event::Failed] + events;
    assert(all.drop_first() =~= tail);
    assert(tail.drop_first() =~= events);
    lemma_over(runs, progress, Phase::Done(Outcome::Rejected), events);
    assert(trace(runs, progress, Phase::Acquiring, tail) =~= Seq::<Action>::empty());
    assert(trace(runs, progress, Phase::Idle, all) =~= seq![Action::Acquire]);
    let short = seq![Event::Start, Event::Failed];
    assert(short.drop_first() =~= seq![Event::Failed]);
    assert(seq![Event::Failed].drop_first() =~= Seq::<Event>::empty());
    assert(reached(runs, progress, Phase::Acquiring, seq![Event::Failed]) == Phase::Done(
        Outcome::Rejected,
    )) by {
        assert(reached(
            runs,
            progress,
            Phase::Done(Outcome::Rejected),
            seq![Event::Failed].drop_first(),
        ) == Phase::Done(Outcome::Rejected));
    }
}

/// The state in which the actions leave the key, which was in the state
/// `before`: that of the last call of the device among them.
pub open spec fn key_after(actions: Seq<Action>, before: Signal) -> Signal
    decreases actions.len(),
{
    if actions.len() == 0 {
        before
    } else {
        match actions.last() {
            Action::On => Signal::On,
            Action::Off => Signal::Off,
            _ => key_after(actions.drop_last(), before),
        }
    }
}

/// The units by which the actions advance the progress sink.
pub open spec fn advanced(actions: Seq<Action>) -> nat
    decreases actions.len(),
{
    if actions.len() == 0 {
        0
    } else {
        advanced(actions.drop_last()) + match actions.last() {
            Action::Advance(units) => units as nat,
            _ => 0,
        }
    }
}

/// The units for which the actions suspend the transmission.
pub open spec fn slept(actions: Seq<Action>) -> nat
    decreases actions.len(),
{
    if actions.len() == 0 {
        0
    } else {
        slept(actions.drop_last()) + match actions.last() {
            Action::Sleep(units) => units as nat,
            _ => 0,
        }
    }
}

/// Actions taken one after another leave the key as the later ones leave
/// it, and their units add up.
pub proof fn lemma_concat(first: Seq<Action>, second: Seq<Action>, before: Signal)
    ensures
        key_after(first + second, before) == key_after(second, key_after(first, before)),
        advanced(first + second) == advanced(first) + advanced(second),
        slept(first + second) == slept(first) + slept(second),
    decreases second.len(),
{
    if second.len() == 0 {
        assert(first + second =~= first);
    } else {
        assert((first + second).drop_last() =~= first + second.drop_last());
        lemma_concat(first, second.drop_last(), before);
    }
}

/// A transmission that was played to its end leaves the key up.
pub proof fn lemma_key_rests(runs: Seq<RunGroup>, progress: bool, before: Signal)
    ensures
        key_after(script(runs, progress), before) == if runs.len() == 0 {
            before
        } else {
            Signal::Off
        },
{
    if runs.len() > 0 {
        let played = seq![Action::Acquire] + runs_actions(runs, progress, 0);
        let closing = closing_actions(progress);
        lemma_concat(played, closing, before);
        reveal_with_fuel(key_after, 4);
        assert(closing.drop_last().last() == if progress {
            Action::Finish
        } else {
            Action::Off
        });
        if progress {
            assert(closing.drop_last().drop_last().last() == Action::Off);
        }
    }
}

/// Of two transmissions played one after the other on a key that was up,
/// the second finds the key up, and so does whatever comes after it.
pub proof fn lemma_back_to_back(
    first: Seq<RunGroup>,
    first_progress: bool,
    second: Seq<RunGroup>,
    second_progress: bool,
)
    ensures
        key_after(script(first, first_progress), Signal::Off) == Signal::Off,
        key_after(
            script(first, first_progress) + script(second, second_progress),
            Signal::Off,
        ) == Signal::Off,
{
    lemma_key_rests(first, first_progress, Signal::Off);
    lemma_key_rests(second, second_progress, Signal::Off);
    lemma_concat(
        script(first, first_progress),
        script(second, second_progress),
        Signal::Off,
    );
}

/// The runs from `from` on are slept through and reported unit by unit.
proof fn lemma_runs_units(runs: Seq<RunGroup>, progress: bool, from: int)
    requires
        0 <= from <= runs.len(),
    ensures
        slept(runs_actions(runs, progress, from)) + total_units(views(runs.take(from)))
            == total_units(views(runs)),
        advanced(runs_actions(runs, progress, from)) == if progress {
            slept(runs_actions(runs, progress, from))
        } else {
            0
        },
    decreases runs.len() - from,
{
    if from < runs.len() {
        let one = run_actions(runs[from], progress);
        let more = runs_actions(runs, progress, from + 1);
        lemma_runs_units(runs, progress, from + 1);
        lemma_concat(one, more, Signal::Off);
        reveal_with_fuel(slept, 4);
        reveal_with_fuel(advanced, 4);
        assert(slept(one) == runs[from].count);
        assert(advanced(one) == if progress {
            runs[from].count as nat
        } else {
            0
        });
        assert(views(runs.take(from + 1)).drop_last() =~= views(runs.take(from)));
    } else {
        assert(runs.take(from) =~= runs);
    }
}

/// A transmission that is played to its end sleeps through every unit of
/// the timing once, and reports every unit once where a sink is attached.
pub proof fn lemma_progress_total(timing: Seq<Signal>, runs: Seq<RunGroup>, progress: bool)
    requires
        views(runs) == coalesced(timing),
    ensures
        slept(script(runs, progress)) == timing.len(),
        advanced(script(runs, progress)) == if progress {
            timing.len()
        } else {
            0
        },
{
    lemma_coalesced_total(timing);
    if runs.len() > 0 {
        let played = runs_actions(runs, progress, 0);
        let closing = closing_actions(progress);
        lemma_runs_units(runs, progress, 0);
        assert(views(runs.take(0)) =~= Seq::<(Signal, nat)>::empty());
        lemma_concat(seq![Action::Acquire], played, Signal::Off);
        lemma_concat(seq![Action::Acquire] + played, closing, Signal::Off);
        reveal_with_fuel(slept, 4);
        reveal_with_fuel(advanced, 4);
        assert(slept(closing) == 0);
        assert(advanced(closing) == 0);
        assert(slept(seq![Action::Acquire]) == 0);
        assert(advanced(seq![Action::Acquire]) == 0);
    } else {
        assert(views(runs).len() == 0);
    }
}

/// What is ahead of a phase begins with the action of the phase that
/// follows it.
proof fn lemma_ahead_unfolds(runs: Seq<RunGroup>, progress: bool, phase: Phase)
    requires
        runs.len() <= usize::MAX,
        phase.fits(runs),
        phase != Phase::Idle,
        !(phase is Done),
        !(phase is Releasing),
    ensures
        ({
            let next = phase.after(runs, progress, Event::Completed);
            &&& next.fits(runs)
            &&& next.pending(runs) is Some
            &&& ahead(runs, progress, phase) == seq![next.pending(runs)->Some_0] + ahead(
                runs,
                progress,
                next,
            )
            &&& ending(next) == ending(phase)
        }),
{
    let next = phase.after(runs, progress, Event::Completed);
    let rest = ahead(runs, progress, phase);
    let unfolded = seq![next.pending(runs)->Some_0] + ahead(runs, progress, next);
    match phase {
        Phase::Acquiring => {
            assert(rest =~= unfolded);
        },
        Phase::Keying(i) => {
            assert(rest =~= unfolded);
        },
        Phase::Waiting(i) => {
            if !progress && i + 1 < runs.len() {
                assert(runs_actions(runs, progress, i + 1) =~= run_actions(
                    runs[i + 1],
                    progress,
                ) + runs_actions(runs, progress, i + 2));
            }
            assert(rest =~= unfolded);
        },
        Phase::Reporting(i) => {
            if i + 1 < runs.len() {
                assert(runs_actions(runs, progress, i + 1) =~= run_actions(
                    runs[i + 1],
                    progress,
                ) + runs_actions(runs, progress, i + 2));
            }
            assert(rest =~= unfolded);
        },
        Phase::Closing => {
            assert(rest =~= unfolded);
        },
        Phase::Finalizing => {
            assert(rest =~= unfolded);
        },
        Phase::Recovering => {
            assert(rest =~= unfolded);
        },
        _ => {},
    }
}

} // verus!
