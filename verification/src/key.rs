//! Keying a timing on a device: the timing is coalesced into runs, and a
//! transmission decides, one step at a time, what is done with the device,
//! the clock and the progress sink.

use vstd::prelude::*;
use crate::join::joined;
use crate::timing::{gap, spaced, Signal};

verus! {

/// A run of `count` consecutive units that share one state.
#[derive(Debug, Clone, Copy, PartialEq, Eq, Structural)]
pub struct RunGroup {
    pub signal: Signal,
    pub count: usize,
}

impl RunGroup {
    /// The sign under which a run is shown while it is played: a dot for
    /// one unit with the key down, a dash for a longer press, a blank while
    /// the key is up.
    pub open spec fn sign(self) -> char {
        match self.signal {
            Signal::On => if self.count == 1 {
                '.'
            } else {
                '-'
            },
            Signal::Off => ' ',
        }
    }

    /// The sign of the run, as a string.
    pub fn mark(&self) -> (text: &'static str)
        ensures
            text@ == seq![self.sign()],
    {
        let text = match self.signal {
            Signal::On => if self.count == 1 {
                "."
            } else {
                "-"
            },
            Signal::Off => " ",
        };
        proof {
            reveal_strlit(".");
            reveal_strlit("-");
            reveal_strlit(" ");
            assert(text@ =~= seq![self.sign()]);
        }
        text
    }
}

impl View for RunGroup {
    type V = (Signal, nat);

    open spec fn view(&self) -> (Signal, nat) {
        (self.signal, self.count as nat)
    }
}

impl DeepView for RunGroup {
    type V = (Signal, nat);

    open spec fn deep_view(&self) -> (Signal, nat) {
        self@
    }
}

/// The runs as pairs of a state and a number of units.
pub open spec fn views(runs: Seq<RunGroup>) -> Seq<(Signal, nat)> {
    runs.map_values(|run: RunGroup| run@)
}

/// The units that a run stands for.
pub open spec fn units(run: (Signal, nat)) -> Seq<Signal> {
    Seq::new(run.1, |i: int| run.0)
}

/// The units of all the runs, in order.
pub open spec fn flatten(runs: Seq<(Signal, nat)>) -> Seq<Signal>
    decreases runs.len(),
{
    if runs.len() == 0 {
        Seq::empty()
    } else {
        flatten(runs.drop_last()) + units(runs.last())
    }
}

/// The number of units in all the runs together.
pub open spec fn total_units(runs: Seq<(Signal, nat)>) -> nat
    decreases runs.len(),
{
    if runs.len() == 0 {
        0
    } else {
        total_units(runs.drop_last()) + runs.last().1
    }
}

/// Every run holds at least one unit, and no two neighbours share a state:
/// no run could be longer.
pub open spec fn maximal(runs: Seq<(Signal, nat)>) -> bool {
    &&& forall|i: int| 0 <= i < runs.len() ==> (#[trigger] runs[i]).1 >= 1
    &&& forall|i: int| 0 < i < runs.len() ==> runs[i - 1].0 != (#[trigger] runs[i]).0
}

/// The runs of one more unit: the last run grows where the unit continues
/// it, and a new run of one unit starts where it does not.
pub open spec fn extend(runs: Seq<(Signal, nat)>, unit: Signal) -> Seq<(Signal, nat)> {
    if runs.len() > 0 && runs.last().0 == unit {
        runs.update(runs.len() - 1, (unit, runs.last().1 + 1))
    } else {
        runs.push((unit, 1))
    }
}

/// The maximal runs of a timing.
pub open spec fn coalesced(timing: Seq<Signal>) -> Seq<(Signal, nat)>
    decreases timing.len(),
{
    if timing.len() == 0 {
        Seq::empty()
    } else {
        extend(coalesced(timing.drop_last()), timing.last())
    }
}

/// One more unit adds that unit to what the runs flatten to, and one to
/// their total.
pub proof fn lemma_extend(runs: Seq<(Signal, nat)>, unit: Signal)
    ensures
        flatten(extend(runs, unit)) == flatten(runs).push(unit),
        total_units(extend(runs, unit)) == total_units(runs) + 1,
        maximal(runs) ==> maximal(extend(runs, unit)),
        extend(runs, unit).len() >= 1,
{
    let next = extend(runs, unit);
    if runs.len() > 0 && runs.last().0 == unit {
        assert(next.drop_last() =~= runs.drop_last());
        assert(units(next.last()) =~= units(runs.last()).push(unit));
        assert(flatten(next) =~= flatten(runs).push(unit));
    } else {
        assert(next.drop_last() =~= runs);
        assert(units(next.last()) =~= seq![unit]);
        assert(flatten(next) =~= flatten(runs).push(unit));
    }
}

/// Flattening the runs of a timing gives the timing back.
pub proof fn lemma_flatten_coalesced(timing: Seq<Signal>)
    ensures
        flatten(coalesced(timing)) == timing,
    decreases timing.len(),
{
    if timing.len() > 0 {
        lemma_flatten_coalesced(timing.drop_last());
        lemma_extend(coalesced(timing.drop_last()), timing.last());
        assert(timing.drop_last().push(timing.last()) =~= timing);
    }
}

/// The runs of a timing are maximal.
pub proof fn lemma_coalesced_maximal(timing: Seq<Signal>)
    ensures
        maximal(coalesced(timing)),
    decreases timing.len(),
{
    if timing.len() > 0 {
        lemma_coalesced_maximal(timing.drop_last());
        lemma_extend(coalesced(timing.drop_last()), timing.last());
    }
}

/// The runs of a timing hold as many units as the timing; only the empty
/// timing has no run.
pub proof fn lemma_coalesced_total(timing: Seq<Signal>)
    ensures
        total_units(coalesced(timing)) == timing.len(),
        coalesced(timing).len() == 0 <==> timing.len() == 0,
    decreases timing.len(),
{
    if timing.len() > 0 {
        lemma_coalesced_total(timing.drop_last());
        lemma_extend(coalesced(timing.drop_last()), timing.last());
    }
}

/// The last run of a timing is in the state of its last unit.
pub proof fn lemma_coalesced_last(timing: Seq<Signal>)
    requires
        timing.len() > 0,
    ensures
        coalesced(timing).len() > 0,
        coalesced(timing).last().0 == timing.last(),
{
}

/// A stretch of units in one state, set behind a timing that ends in the
/// other state, is one more run.
pub proof fn lemma_coalesced_append(timing: Seq<Signal>, run: (Signal, nat))
    requires
        run.1 >= 1,
        timing.len() > 0 ==> timing.last() != run.0,
    ensures
        coalesced(timing + units(run)) == coalesced(timing).push(run),
    decreases run.1,
{
    let whole = timing + units(run);
    let shorter = (run.0, (run.1 - 1) as nat);
    assert(whole.drop_last() =~= timing + units(shorter));
    if run.1 == 1 {
        assert(timing + units(shorter) =~= timing);
        if timing.len() > 0 {
            lemma_coalesced_last(timing);
        }
    } else {
        lemma_coalesced_append(timing, shorter);
        assert(extend(coalesced(timing).push(shorter), run.0) =~= coalesced(timing).push(run));
    }
}

/// Where one timing ends in another state than the next begins in, the
/// runs of the two set one after the other are the runs of the first
/// followed by the runs of the second.
pub proof fn lemma_coalesced_concat(first: Seq<Signal>, second: Seq<Signal>)
    requires
        first.len() > 0 && second.len() > 0 ==> first.last() != second[0],
    ensures
        coalesced(first + second) == coalesced(first) + coalesced(second),
    decreases second.len(),
{
    if second.len() == 0 {
        assert(first + second =~= first);
        assert(coalesced(first) + coalesced(second) =~= coalesced(first));
    } else if first.len() == 0 {
        assert(first + second =~= second);
        assert(coalesced(first) + coalesced(second) =~= coalesced(second));
    } else {
        let shorter = second.drop_last();
        assert((first + second).drop_last() =~= first + shorter);
        lemma_coalesced_concat(first, shorter);
        lemma_coalesced_last(first);
        if shorter.len() == 0 {
            assert(coalesced(first) + coalesced(shorter) =~= coalesced(first));
            assert(extend(coalesced(first), second.last()) =~= coalesced(first) + coalesced(
                second,
            ));
        } else {
            lemma_coalesced_last(shorter);
            assert(extend(coalesced(first) + coalesced(shorter), second.last()) =~= coalesced(
                first,
            ) + coalesced(second));
        }
    }
}

/// A timing that begins and ends with the key down.
pub open spec fn keyed(timing: Seq<Signal>) -> bool {
    timing.len() > 0 && timing[0] == Signal::On && timing.last() == Signal::On
}

/// Timings that begin and end with the key down, set a gap apart, keep
/// their runs: between the runs of one part and those of the next stands
/// the gap as a single run, no longer and no shorter than it was made.
pub proof fn lemma_spaced_runs(parts: Seq<Seq<Signal>>, width: nat)
    requires
        width >= 1,
        forall|i: int| 0 <= i < parts.len() ==> keyed(#[trigger] parts[i]),
    ensures
        coalesced(spaced(parts, width)) == joined(
            parts.map_values(|part: Seq<Signal>| coalesced(part)),
            seq![(Signal::Off, width)],
        ),
        parts.len() > 0 ==> keyed(spaced(parts, width)),
    decreases parts.len(),
{
    let runs = parts.map_values(|part: Seq<Signal>| coalesced(part));
    let between = seq![(Signal::Off, width)];
    if parts.len() == 1 {
        assert(keyed(parts[0]));
    } else if parts.len() > 1 {
        let before = spaced(parts.drop_last(), width);
        assert(keyed(parts.last()));
        lemma_spaced_runs(parts.drop_last(), width);
        assert(runs.drop_last() =~= parts.drop_last().map_values(
            |part: Seq<Signal>| coalesced(part),
        ));
        assert(gap(width) =~= Seq::<Signal>::empty() + units((Signal::Off, width)));
        lemma_coalesced_append(Seq::empty(), (Signal::Off, width));
        assert(coalesced(gap(width)) =~= between);
        lemma_coalesced_concat(before, gap(width));
        lemma_coalesced_concat(before + gap(width), parts.last());
    }
}

/// Maximal runs are the runs of what they flatten to: a timing has no
/// other maximal runs than those that coalescing finds.
pub proof fn lemma_coalesced_unique(runs: Seq<(Signal, nat)>)
    requires
        maximal(runs),
    ensures
        coalesced(flatten(runs)) == runs,
        runs.len() > 0 ==> flatten(runs).len() > 0 && flatten(runs).last() == runs.last().0,
    decreases runs.len(),
{
    if runs.len() > 0 {
        let before = runs.drop_last();
        assert forall|i: int| 0 < i < before.len() implies before[i - 1].0 != (
        #[trigger] before[i]).0 by {
            assert(runs[i - 1].0 != runs[i].0);
        }
        lemma_coalesced_unique(before);
        assert(runs.last().1 >= 1);
        if before.len() > 0 {
            assert(runs[runs.len() - 2].0 != runs[runs.len() - 1].0);
        }
        lemma_coalesced_append(flatten(before), runs.last());
        assert(before.push(runs.last()) =~= runs);
        assert(units(runs.last()).last() == runs.last().0);
    }
}

/// No run holds more units than all the runs together.
pub proof fn lemma_count_bounded(runs: Seq<(Signal, nat)>, i: int)
    requires
        0 <= i < runs.len(),
    ensures
        runs[i].1 <= total_units(runs),
    decreases runs.len(),
{
    if i < runs.len() - 1 {
        lemma_count_bounded(runs.drop_last(), i);
    }
}

/// Coalesces a timing into its maximal runs.
pub fn coalesce(timing: &Vec<Signal>) -> (runs: Vec<RunGroup>)
    ensures
        views(runs@) == coalesced(timing@),
{
    let mut runs: Vec<RunGroup> = Vec::new();
    let mut done: usize = 0;
    assert(runs.deep_view() =~= coalesced(timing@.take(0)));
    while done < timing.len()
        invariant
            done <= timing.len(),
            runs.deep_view() == coalesced(timing@.take(done as int)),
        decreases timing.len() - done,
    {
        let unit = timing[done];
        let ghost before = runs.deep_view();
        proof {
            assert(timing@.take(done + 1).drop_last() =~= timing@.take(done as int));
            lemma_coalesced_total(timing@.take(done as int));
            if runs.len() > 0 {
                lemma_count_bounded(before, runs.len() - 1);
                assert(before[runs.len() - 1] == runs[runs.len() - 1]@);
            }
        }
        let n = runs.len();
        if n > 0 && runs[n - 1].signal == unit {
            let grown = RunGroup { signal: unit, count: runs[n - 1].count + 1 };
            runs.set(n - 1, grown);
        } else {
            runs.push(RunGroup { signal: unit, count: 1 });
        }
        done = done + 1;
        assert(runs.deep_view() =~= extend(before, unit));
    }
    assert(timing@.take(done as int) =~= timing@);
    assert(views(runs@) =~= runs.deep_view());
    runs
}

} // verus!
