use morseqtt::lock::DeviceLock;
use morseqtt::key::{coalesce, RunGroup};
use morseqtt::phrase::Phrase;
use morseqtt::timing::Signal;
use morseqtt::transmission::{Action, Event, Outcome, Phase, Transmission};

fn run(signal: Signal, count: usize) -> RunGroup {
    RunGroup { signal, count }
}

fn play(transmission: &mut Transmission) -> Vec<Action> {
    let mut actions = Vec::new();
    let mut due = transmission.step(Event::Start);
    while let Some(action) = due {
        actions.push(action);
        due = transmission.step(Event::Completed);
    }
    actions
}

#[test]
fn coalesce_groups_equal_neighbours() {
    let timing = Phrase::parse("A E").unwrap().timing();
    assert_eq!(
        coalesce(&timing),
        vec![
            run(Signal::On, 1),
            run(Signal::Off, 1),
            run(Signal::On, 3),
            run(Signal::Off, 7),
            run(Signal::On, 1),
        ]
    );
    assert_eq!(coalesce(&vec![Signal::Off, Signal::Off]), vec![run(Signal::Off, 2)]);
    assert!(coalesce(&Vec::new()).is_empty());
}

#[test]
fn flattened_runs_give_the_timing_back() {
    let timing = Phrase::parse("MORSE CODE").unwrap().timing();
    let mut flat = Vec::new();
    for group in coalesce(&timing) {
        assert!(group.count >= 1);
        for _ in 0..group.count {
            flat.push(group.signal);
        }
    }
    assert_eq!(flat, timing);
}

#[test]
fn empty_phrase_touches_nothing() {
    let timing = Phrase::parse("   ").unwrap().into_timing();
    let mut transmission = Transmission::new(&timing, true);
    assert!(transmission.runs().is_empty());
    assert_eq!(transmission.phase(), Phase::Idle);
    assert_eq!(transmission.outcome(), None);
    assert_eq!(transmission.step(Event::Start), None);
    assert_eq!(transmission.phase(), Phase::Done(Outcome::Completed));
    assert_eq!(transmission.outcome(), Some(Outcome::Completed));
    assert_eq!(transmission.step(Event::Completed), None);
    assert_eq!(transmission.step(Event::Failed), None);
    assert_eq!(transmission.outcome(), Some(Outcome::Completed));
}

#[test]
fn script_with_progress() {
    let timing = Phrase::parse("A").unwrap().timing();
    let mut transmission = Transmission::new(&timing, true);
    assert_eq!(
        play(&mut transmission),
        vec![
            Action::Acquire,
            Action::On,
            Action::Sleep(1),
            Action::Advance(1),
            Action::Off,
            Action::Sleep(1),
            Action::Advance(1),
            Action::On,
            Action::Sleep(3),
            Action::Advance(3),
            Action::Off,
            Action::Finish,
            Action::Release,
        ]
    );
    assert_eq!(transmission.outcome(), Some(Outcome::Completed));
}

#[test]
fn script_without_progress() {
    let timing = Phrase::parse("N").unwrap().timing();
    let mut transmission = Transmission::new(&timing, false);
    assert_eq!(
        play(&mut transmission),
        vec![
            Action::Acquire,
            Action::On,
            Action::Sleep(3),
            Action::Off,
            Action::Sleep(1),
            Action::On,
            Action::Sleep(1),
            Action::Off,
            Action::Release,
        ]
    );
    assert_eq!(transmission.outcome(), Some(Outcome::Completed));
}

#[test]
fn advances_add_up_to_the_timing() {
    let timing = Phrase::parse("MORSE CODE").unwrap().timing();
    let mut transmission = Transmission::new(&timing, true);
    let mut advanced = 0;
    let mut slept = 0;
    for action in play(&mut transmission) {
        match action {
            Action::Advance(units) => advanced += units,
            Action::Sleep(units) => slept += units,
            _ => {}
        }
    }
    assert_eq!(advanced, timing.len());
    assert_eq!(slept, timing.len());
    assert_eq!(timing.len(), 89);
}

#[test]
fn back_to_back_transmissions_end_with_the_key_up() {
    let mut calls = Vec::new();
    for text in ["T", "E"] {
        let timing = Phrase::parse(text).unwrap().timing();
        let mut transmission = Transmission::new(&timing, false);
        let actions = play(&mut transmission);
        assert_eq!(actions.first(), Some(&Action::Acquire));
        assert_eq!(actions.last(), Some(&Action::Release));
        calls.extend(actions);
    }
    assert_eq!(
        calls,
        vec![
            Action::Acquire,
            Action::On,
            Action::Sleep(3),
            Action::Off,
            Action::Release,
            Action::Acquire,
            Action::On,
            Action::Sleep(1),
            Action::Off,
            Action::Release,
        ]
    );
}

#[test]
fn refused_device_is_never_touched() {
    let timing = Phrase::parse("E").unwrap().timing();
    let mut transmission = Transmission::new(&timing, true);
    assert_eq!(transmission.step(Event::Start), Some(Action::Acquire));
    assert_eq!(transmission.phase(), Phase::Acquiring);
    assert_eq!(transmission.step(Event::Failed), None);
    assert_eq!(transmission.outcome(), Some(Outcome::Rejected));
}

#[test]
fn failed_call_is_answered_by_one_off() {
    let timing = Phrase::parse("EE").unwrap().timing();
    let mut transmission = Transmission::new(&timing, true);
    assert_eq!(transmission.step(Event::Start), Some(Action::Acquire));
    assert_eq!(transmission.step(Event::Completed), Some(Action::On));
    assert_eq!(transmission.phase(), Phase::Keying(0));
    assert_eq!(transmission.step(Event::Failed), Some(Action::Off));
    assert_eq!(transmission.phase(), Phase::Recovering);
    assert_eq!(transmission.step(Event::Failed), Some(Action::Release));
    assert_eq!(transmission.step(Event::Completed), None);
    assert_eq!(transmission.outcome(), Some(Outcome::Failed));
}

#[test]
fn failed_delay_gives_up_the_rest() {
    let timing = Phrase::parse("EE").unwrap().timing();
    let mut transmission = Transmission::new(&timing, false);
    transmission.step(Event::Start);
    transmission.step(Event::Completed);
    assert_eq!(transmission.step(Event::Completed), Some(Action::Sleep(1)));
    assert_eq!(transmission.step(Event::Failed), Some(Action::Off));
    assert_eq!(transmission.step(Event::Completed), Some(Action::Release));
    assert_eq!(transmission.step(Event::Completed), None);
    assert_eq!(transmission.outcome(), Some(Outcome::Failed));
}

#[test]
fn failed_closing_off_is_not_repeated() {
    let timing = Phrase::parse("E").unwrap().timing();
    let mut transmission = Transmission::new(&timing, true);
    transmission.step(Event::Start);
    transmission.step(Event::Completed);
    transmission.step(Event::Completed);
    assert_eq!(transmission.step(Event::Completed), Some(Action::Advance(1)));
    assert_eq!(transmission.step(Event::Completed), Some(Action::Off));
    assert_eq!(transmission.phase(), Phase::Closing);
    assert_eq!(transmission.step(Event::Failed), Some(Action::Release));
    assert_eq!(transmission.step(Event::Completed), None);
    assert_eq!(transmission.outcome(), Some(Outcome::Failed));
}

#[test]
fn start_is_heard_once() {
    let timing = Phrase::parse("E").unwrap().timing();
    let mut transmission = Transmission::new(&timing, false);
    assert_eq!(transmission.step(Event::Completed), None);
    assert_eq!(transmission.phase(), Phase::Idle);
    assert_eq!(transmission.pending(), None);
    assert_eq!(transmission.step(Event::Start), Some(Action::Acquire));
    assert_eq!(transmission.step(Event::Start), None);
    assert_eq!(transmission.pending(), Some(Action::Acquire));
    assert_eq!(transmission.phase(), Phase::Acquiring);
}

#[test]
fn runs_are_shown_as_marks() {
    assert_eq!(run(Signal::On, 1).mark(), ".");
    assert_eq!(run(Signal::On, 3).mark(), "-");
    assert_eq!(run(Signal::Off, 1).mark(), " ");
    assert_eq!(run(Signal::Off, 7).mark(), " ");
}

#[test]
fn current_run_follows_the_phase() {
    let timing = Phrase::parse("A").unwrap().timing();
    let mut transmission = Transmission::new(&timing, true);
    assert_eq!(transmission.current(), None);
    transmission.step(Event::Start);
    assert_eq!(transmission.current(), None);
    transmission.step(Event::Completed);
    assert_eq!(transmission.current(), Some(run(Signal::On, 1)));
    transmission.step(Event::Completed);
    assert_eq!(transmission.phase(), Phase::Waiting(0));
    transmission.step(Event::Completed);
    assert_eq!(transmission.phase(), Phase::Reporting(0));
    assert_eq!(transmission.current(), Some(run(Signal::On, 1)));
    transmission.step(Event::Completed);
    assert_eq!(transmission.current(), Some(run(Signal::Off, 1)));
    for _ in 0..6 {
        transmission.step(Event::Completed);
    }
    assert_eq!(transmission.phase(), Phase::Closing);
    assert_eq!(transmission.current(), None);
    assert_eq!(transmission.step(Event::Completed), Some(Action::Finish));
    assert_eq!(transmission.phase(), Phase::Finalizing);
    assert_eq!(transmission.step(Event::Failed), Some(Action::Release));
    assert_eq!(transmission.phase(), Phase::Releasing(false));
    assert_eq!(transmission.step(Event::Failed), None);
    assert_eq!(transmission.outcome(), Some(Outcome::Failed));
}

#[test]
fn failed_report_gives_up_the_rest() {
    let timing = Phrase::parse("I").unwrap().timing();
    let mut transmission = Transmission::new(&timing, true);
    transmission.step(Event::Start);
    transmission.step(Event::Completed);
    transmission.step(Event::Completed);
    assert_eq!(transmission.step(Event::Completed), Some(Action::Advance(1)));
    assert_eq!(transmission.step(Event::Failed), Some(Action::Off));
    assert_eq!(transmission.step(Event::Completed), Some(Action::Release));
    assert_eq!(transmission.step(Event::Completed), None);
    assert_eq!(transmission.outcome(), Some(Outcome::Failed));
}

#[test]
fn lock_admits_one_transmission_at_a_time() {
    let mut lock = DeviceLock::new();
    assert!(!lock.is_busy());
    let timing = Phrase::parse("E").unwrap().timing();
    let mut first = Transmission::new(&timing, false);
    let mut second = Transmission::new(&timing, false);
    assert_eq!(first.step(Event::Start), Some(Action::Acquire));
    assert_eq!(second.step(Event::Start), Some(Action::Acquire));
    let granted = lock.acquire();
    assert_eq!(granted, Event::Completed);
    assert!(lock.is_busy());
    assert_eq!(first.step(granted), Some(Action::On));
    let refused = lock.acquire();
    assert_eq!(refused, Event::Failed);
    assert!(lock.is_busy());
    assert_eq!(second.step(refused), None);
    assert_eq!(second.outcome(), Some(Outcome::Rejected));
    assert_eq!(first.step(Event::Completed), Some(Action::Sleep(1)));
    assert_eq!(first.step(Event::Completed), Some(Action::Off));
    assert_eq!(first.step(Event::Completed), Some(Action::Release));
    assert_eq!(lock.release(), Event::Completed);
    assert!(!lock.is_busy());
    assert_eq!(first.step(Event::Completed), None);
    assert_eq!(first.outcome(), Some(Outcome::Completed));
    assert_eq!(lock.acquire(), Event::Completed);
}
