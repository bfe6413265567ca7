//! The keyed state of one time unit, and sequences of such units.

use vstd::prelude::*;
use crate::join::joined;

verus! {

/// The state of the key during one time unit.
#[derive(Debug, Clone, Copy, PartialEq, Eq, Structural)]
pub enum Signal {
    On,
    Off,
}

impl Signal {
    /// The character that stands for this state in a rendered timing.
    pub open spec fn glyph(self) -> char {
        match self {
            Signal::On => '=',
            Signal::Off => '.',
        }
    }

    /// Renders one unit: `=` while the key is down, `.` while it is up.
    pub fn to_string(&self) -> (text: String)
        ensures
            text@ == seq![self.glyph()],
    {
        let text = match self {
            Signal::On => "=",
            Signal::Off => ".",
        };
        proof {
            reveal_strlit("=");
            reveal_strlit(".");
            assert(text@ =~= seq![self.glyph()]);
        }
        String::from_str(text)
    }
}

/// `width` units during which the key is up.
pub open spec fn gap(width: nat) -> Seq<Signal> {
    Seq::new(width, |i: int| Signal::Off)
}

/// The timings in `parts` one after another, each but the first preceded by
/// a gap of `width` units.
pub open spec fn spaced(parts: Seq<Seq<Signal>>, width: nat) -> Seq<Signal> {
    joined(parts, gap(width))
}

/// Appends a gap of `width` units to `out`.
pub fn push_gap(out: &mut Vec<Signal>, width: usize)
    ensures
        final(out)@ == old(out)@ + gap(width as nat),
{
    let mut done: usize = 0;
    while done < width
        invariant
            done <= width,
            out@ == old(out)@ + gap(done as nat),
        decreases width - done,
    {
        out.push(Signal::Off);
        done = done + 1;
        assert(out@ =~= old(out)@ + gap(done as nat));
    }
}

/// Appends the units of `part` to `out`.
pub fn push_all(out: &mut Vec<Signal>, part: &Vec<Signal>)
    ensures
        final(out)@ == old(out)@ + part@,
{
    let mut done: usize = 0;
    assert(out@ =~= old(out)@ + part@.take(0));
    while done < part.len()
        invariant
            done <= part.len(),
            out@ == old(out)@ + part@.take(done as int),
        decreases part.len() - done,
    {
        out.push(part[done]);
        done = done + 1;
        assert(out@ =~= old(out)@ + part@.take(done as int));
    }
    assert(part@.take(done as int) =~= part@);
}

/// Renders a timing, one character per unit.
pub fn render(timing: &Vec<Signal>) -> (text: String)
    ensures
        text@ == timing@.map_values(|s: Signal| s.glyph()),
{
    let mut text = String::new();
    let mut done: usize = 0;
    while done < timing.len()
        invariant
            done <= timing.len(),
            text@ == timing@.take(done as int).map_values(|s: Signal| s.glyph()),
        decreases timing.len() - done,
    {
        let unit = timing[done].to_string();
        text.append(unit.as_str());
        done = done + 1;
        assert(text@ =~= timing@.take(done as int).map_values(|s: Signal| s.glyph()));
    }
    assert(timing@.take(done as int) =~= timing@);
    text
}

} // verus!
