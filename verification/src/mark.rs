//! The two marks of Morse code.

use vstd::prelude::*;
use crate::timing::Signal;

verus! {

/// A keyed symbol: a short or a long press.
#[derive(Debug, Clone, Copy, PartialEq, Eq, Structural)]
pub enum Mark {
    Dot,
    Dash,
}

impl Mark {
    /// The character that a mark is written with.
    pub open spec fn glyph(self) -> char {
        match self {
            Mark::Dot => '.',
            Mark::Dash => '-',
        }
    }

    /// The mark that a character of a code stands for.
    pub open spec fn of(c: char) -> Mark
        recommends
            c == '.' || c == '-',
    {
        if c == '.' {
            Mark::Dot
        } else {
            Mark::Dash
        }
    }

    /// The number of units for which a mark holds the key down.
    pub open spec fn units(self) -> nat {
        match self {
            Mark::Dot => 1,
            Mark::Dash => 3,
        }
    }

    /// The timing of a mark: the key is down throughout.
    pub open spec fn spec_timing(self) -> Seq<Signal> {
        Seq::new(self.units(), |i: int| Signal::On)
    }

    /// The timing of the mark.
    pub fn timing(&self) -> (timing: Vec<Signal>)
        ensures
            timing@ == self.spec_timing(),
    {
        let timing = match self {
            Mark::Dot => vec![Signal::On],
            Mark::Dash => vec![Signal::On, Signal::On, Signal::On],
        };
        assert(timing@ =~= self.spec_timing());
        timing
    }

    /// The mark that `c` is the glyph of.
    pub fn from(c: char) -> (mark: Mark)
        requires
            c == '.' || c == '-',
        ensures
            mark == Mark::of(c),
            mark.glyph() == c,
    {
        if c == '.' {
            Mark::Dot
        } else {
            Mark::Dash
        }
    }

    /// The glyph of the mark, as a string.
    pub fn to_string(&self) -> (text: String)
        ensures
            text@ == seq![self.glyph()],
    {
        let text = match self {
            Mark::Dot => ".",
            Mark::Dash => "-",
        };
        proof {
            reveal_strlit(".");
            reveal_strlit("-");
            assert(text@ =~= seq![self.glyph()]);
        }
        String::from_str(text)
    }
}

} // verus!
