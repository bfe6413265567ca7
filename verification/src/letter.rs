//! The alphabet: each letter with its character and its code.

use vstd::prelude::*;
use crate::mark::Mark;
use crate::join::{alternating, lemma_alternating, lemma_joined_push};
use crate::key::{coalesced, keyed, lemma_coalesced_append, lemma_spaced_runs, units};
use crate::timing::{gap, push_all, push_gap, spaced, Signal};
use crate::word::ParseWordError;

verus! {

/// A character that has a Morse code.
#[derive(Debug, Clone, Copy, PartialEq, Eq, Structural)]
pub enum Letter {
    A,
    B,
    C,
    D,
    E,
    F,
    G,
    H,
    I,
    J,
    K,
    L,
    M,
    N,
    O,
    P,
    Q,
    R,
    S,
    T,
    U,
    V,
    W,
    X,
    Y,
    Z,
    Digit0,
    Digit1,
    Digit2,
    Digit3,
    Digit4,
    Digit5,
    Digit6,
    Digit7,
    Digit8,
    Digit9,
    Ampersand,
    Apostrophe,
    At,
    BracketClose,
    BracketOpen,
    Colon,
    Comma,
    Equal,
    Bang,
    Period,
    Hyphen,
    Plus,
    Quote,
    Query,
    Slash,
}

impl Letter {
    /// The code of a letter, written with `.` for a dot and `-` for a dash.
    /// Marks and timing are read from these strings and from nowhere else.
    pub open spec fn code(self) -> Seq<char> {
        match self {
            Letter::A => ".-"@,
            Letter::B => "-..."@,
            Letter::C => "-.-."@,
            Letter::D => "-.."@,
            Letter::E => "."@,
            Letter::F => "..-."@,
            Letter::G => "--."@,
            Letter::H => "...."@,
            Letter::I => ".."@,
            Letter::J => ".---"@,
            Letter::K => "-.-"@,
            Letter::L => ".-.."@,
            Letter::M => "--"@,
            Letter::N => "-."@,
            Letter::O => "---"@,
            Letter::P => ".--."@,
            Letter::Q => "--.-"@,
            Letter::R => ".-."@,
            Letter::S => "..."@,
            Letter::T => "-"@,
            Letter::U => "..-"@,
            Letter::V => "...-"@,
            Letter::W => ".--"@,
            Letter::X => "-..-"@,
            Letter::Y => "-.--"@,
            Letter::Z => "--.."@,
            Letter::Digit0 => "-----"@,
            Letter::Digit1 => ".----"@,
            Letter::Digit2 => "..---"@,
            Letter::Digit3 => "...--"@,
            Letter::Digit4 => "....-"@,
            Letter::Digit5 => "....."@,
            Letter::Digit6 => "-...."@,
            Letter::Digit7 => "--..."@,
            Letter::Digit8 => "---.."@,
            Letter::Digit9 => "----."@,
            Letter::Ampersand => ".-..."@,
            Letter::Apostrophe => ".----."@,
            Letter::At => ".--.-."@,
            Letter::BracketClose => "-.--.-"@,
            Letter::BracketOpen => "-.--."@,
            Letter::Colon => "---..."@,
            Letter::Comma => "--..--"@,
            Letter::Equal => "-...-"@,
            Letter::Bang => "-.-.--"@,
            Letter::Period => ".-.-.-"@,
            Letter::Hyphen => "-....-"@,
            Letter::Plus => ".-.-."@,
            Letter::Quote => ".-..-."@,
            Letter::Query => "..--.."@,
            Letter::Slash => "-..-."@,
        }
    }

    /// The letter that a character stands for, if it is in the alphabet.
    /// Lower-case characters are not.
    pub open spec fn of_char(c: char) -> Option<Letter> {
        match c {
            'A' => Some(Letter::A),
            'B' => Some(Letter::B),
            'C' => Some(Letter::C),
            'D' => Some(Letter::D),
            'E' => Some(Letter::E),
            'F' => Some(Letter::F),
            'G' => Some(Letter::G),
            'H' => Some(Letter::H),
            'I' => Some(Letter::I),
            'J' => Some(Letter::J),
            'K' => Some(Letter::K),
            'L' => Some(Letter::L),
            'M' => Some(Letter::M),
            'N' => Some(Letter::N),
            'O' => Some(Letter::O),
            'P' => Some(Letter::P),
            'Q' => Some(Letter::Q),
            'R' => Some(Letter::R),
            'S' => Some(Letter::S),
            'T' => Some(Letter::T),
            'U' => Some(Letter::U),
            'V' => Some(Letter::V),
            'W' => Some(Letter::W),
            'X' => Some(Letter::X),
            'Y' => Some(Letter::Y),
            'Z' => Some(Letter::Z),
            '0' => Some(Letter::Digit0),
            '1' => Some(Letter::Digit1),
            '2' => Some(Letter::Digit2),
            '3' => Some(Letter::Digit3),
            '4' => Some(Letter::Digit4),
            '5' => Some(Letter::Digit5),
            '6' => Some(Letter::Digit6),
            '7' => Some(Letter::Digit7),
            '8' => Some(Letter::Digit8),
            '9' => Some(Letter::Digit9),
            '&' => Some(Letter::Ampersand),
            '\'' => Some(Letter::Apostrophe),
            '@' => Some(Letter::At),
            ')' => Some(Letter::BracketClose),
            '(' => Some(Letter::BracketOpen),
            ':' => Some(Letter::Colon),
            ',' => Some(Letter::Comma),
            '=' => Some(Letter::Equal),
            '!' => Some(Letter::Bang),
            '.' => Some(Letter::Period),
            '-' => Some(Letter::Hyphen),
            '+' => Some(Letter::Plus),
            '"' => Some(Letter::Quote),
            '?' => Some(Letter::Query),
            '/' => Some(Letter::Slash),
            _ => None,
        }
    }

    /// The marks of a letter, in order.
    pub open spec fn spec_marks(self) -> Seq<Mark> {
        self.code().map_values(|c: char| Mark::of(c))
    }

    /// The timing of a letter: its marks, one unit apart.
    pub open spec fn spec_timing(self) -> Seq<Signal> {
        spaced(self.spec_marks().map_values(|mark: Mark| mark.spec_timing()), 1)
    }

    /// The code of the letter.
    pub fn str_ref(&self) -> (code: &'static str)
        ensures
            code@ == self.code(),
    {
        match self {
            Letter::A => ".-",
            Letter::B => "-...",
            Letter::C => "-.-.",
            Letter::D => "-..",
            Letter::E => ".",
            Letter::F => "..-.",
            Letter::G => "--.",
            Letter::H => "....",
            Letter::I => "..",
            Letter::J => ".---",
            Letter::K => "-.-",
            Letter::L => ".-..",
            Letter::M => "--",
            Letter::N => "-.",
            Letter::O => "---",
            Letter::P => ".--.",
            Letter::Q => "--.-",
            Letter::R => ".-.",
            Letter::S => "...",
            Letter::T => "-",
            Letter::U => "..-",
            Letter::V => "...-",
            Letter::W => ".--",
            Letter::X => "-..-",
            Letter::Y => "-.--",
            Letter::Z => "--..",
            Letter::Digit0 => "-----",
            Letter::Digit1 => ".----",
            Letter::Digit2 => "..---",
            Letter::Digit3 => "...--",
            Letter::Digit4 => "....-",
            Letter::Digit5 => ".....",
            Letter::Digit6 => "-....",
            Letter::Digit7 => "--...",
            Letter::Digit8 => "---..",
            Letter::Digit9 => "----.",
            Letter::Ampersand => ".-...",
            Letter::Apostrophe => ".----.",
            Letter::At => ".--.-.",
            Letter::BracketClose => "-.--.-",
            Letter::BracketOpen => "-.--.",
            Letter::Colon => "---...",
            Letter::Comma => "--..--",
            Letter::Equal => "-...-",
            Letter::Bang => "-.-.--",
            Letter::Period => ".-.-.-",
            Letter::Hyphen => "-....-",
            Letter::Plus => ".-.-.",
            Letter::Quote => ".-..-.",
            Letter::Query => "..--..",
            Letter::Slash => "-..-.",
        }
    }

    /// Whether `c` is in the alphabet.
    pub fn is_valid(c: char) -> (valid: bool)
        ensures
            valid == Letter::of_char(c).is_some(),
    {
        Letter::lookup(c).is_some()
    }

    /// The letter that `c` stands for, if there is one.
    pub fn lookup(c: char) -> (letter: Option<Letter>)
        ensures
            letter == Letter::of_char(c),
    {
        match c {
            'A' => Some(Letter::A),
            'B' => Some(Letter::B),
            'C' => Some(Letter::C),
            'D' => Some(Letter::D),
            'E' => Some(Letter::E),
            'F' => Some(Letter::F),
            'G' => Some(Letter::G),
            'H' => Some(Letter::H),
            'I' => Some(Letter::I),
            'J' => Some(Letter::J),
            'K' => Some(Letter::K),
            'L' => Some(Letter::L),
            'M' => Some(Letter::M),
            'N' => Some(Letter::N),
            'O' => Some(Letter::O),
            'P' => Some(Letter::P),
            'Q' => Some(Letter::Q),
            'R' => Some(Letter::R),
            'S' => Some(Letter::S),
            'T' => Some(Letter::T),
            'U' => Some(Letter::U),
            'V' => Some(Letter::V),
            'W' => Some(Letter::W),
            'X' => Some(Letter::X),
            'Y' => Some(Letter::Y),
            'Z' => Some(Letter::Z),
            '0' => Some(Letter::Digit0),
            '1' => Some(Letter::Digit1),
            '2' => Some(Letter::Digit2),
            '3' => Some(Letter::Digit3),
            '4' => Some(Letter::Digit4),
            '5' => Some(Letter::Digit5),
            '6' => Some(Letter::Digit6),
            '7' => Some(Letter::Digit7),
            '8' => Some(Letter::Digit8),
            '9' => Some(Letter::Digit9),
            '&' => Some(Letter::Ampersand),
            '\'' => Some(Letter::Apostrophe),
            '@' => Some(Letter::At),
            ')' => Some(Letter::BracketClose),
            '(' => Some(Letter::BracketOpen),
            ':' => Some(Letter::Colon),
            ',' => Some(Letter::Comma),
            '=' => Some(Letter::Equal),
            '!' => Some(Letter::Bang),
            '.' => Some(Letter::Period),
            '-' => Some(Letter::Hyphen),
            '+' => Some(Letter::Plus),
            '"' => Some(Letter::Quote),
            '?' => Some(Letter::Query),
            '/' => Some(Letter::Slash),
            _ => None,
        }
    }

    /// The letter that `c` stands for; `c` must be in the alphabet.
    pub fn from(c: char) -> (letter: Letter)
        requires
            Letter::of_char(c).is_some(),
        ensures
            Letter::of_char(c) == Some(letter),
    {
        Letter::lookup(c).unwrap()
    }

    /// The letter that `c` stands for, or `c` itself as the error where it is
    /// not in the alphabet.
    pub fn try_from(c: &char) -> (letter: Result<Letter, ParseWordError>)
        ensures
            letter == match Letter::of_char(*c) {
                Some(found) => Ok::<Letter, ParseWordError>(found),
                None => Err((ParseWordError { c: *c })),
            },
    {
        match Letter::lookup(*c) {
            Some(found) => Ok(found),
            None => Err(ParseWordError { c: *c }),
        }
    }

    /// The marks of the letter, read from its code.
    pub fn marks(&self) -> (marks: Vec<Mark>)
        ensures
            marks@ == self.spec_marks(),
    {
        let code = self.str_ref();
        let mut marks: Vec<Mark> = Vec::new();
        proof {
            lemma_code_shape(*self);
        }
        for c in it: code.chars()
            invariant
                it.seq() == code@,
                code@ == self.code(),
                forall|i: int|
                    0 <= i < code@.len() ==> {
                        let c = #[trigger] code@[i];
                        c == '.' || c == '-'
                    },
                marks@ == code@.take(it.index()).map_values(|c: char| Mark::of(c)),
        {
            marks.push(Mark::from(c));
            assert(marks@ =~= code@.take(it.index() + 1).map_values(|c: char| Mark::of(c)));
        }
        assert(code@.take(code@.len() as int) =~= code@);
        marks
    }

    /// The timing of the letter.
    pub fn timing(&self) -> (timing: Vec<Signal>)
        ensures
            timing@ == self.spec_timing(),
    {
        let marks = self.marks();
        let ghost parts = marks@.map_values(|mark: Mark| mark.spec_timing());
        let mut timing: Vec<Signal> = Vec::new();
        let mut done: usize = 0;
        while done < marks.len()
            invariant
                done <= marks.len(),
                parts == marks@.map_values(|mark: Mark| mark.spec_timing()),
                timing@ == spaced(parts.take(done as int), 1),
            decreases marks.len() - done,
        {
            if done > 0 {
                push_gap(&mut timing, 1);
            }
            let part = marks[done].timing();
            push_all(&mut timing, &part);
            proof {
                lemma_joined_push(parts.take(done as int), part@, gap(1));
                assert(parts.take(done as int).push(part@) =~= parts.take(done + 1));
            }
            done = done + 1;
        }
        assert(parts.take(done as int) =~= parts);
        timing
    }

    /// The code of the letter, as a string of its own.
    pub fn to_string(&self) -> (text: String)
        ensures
            text@ == self.code(),
    {
        String::from_str(self.str_ref())
    }
}

/// Every code holds between one and six marks, written with `.` and `-`.
pub proof fn lemma_code_shape(letter: Letter)
    ensures
        1 <= letter.code().len() <= 6,
        forall|i: int|
            0 <= i < letter.code().len() ==> {
                let c = #[trigger] letter.code()[i];
                c == '.' || c == '-'
            },
{
    reveal_strlit(".-");
    reveal_strlit("-...");
    reveal_strlit("-.-.");
    reveal_strlit("-..");
    reveal_strlit(".");
    reveal_strlit("..-.");
    reveal_strlit("--.");
    reveal_strlit("....");
    reveal_strlit("..");
    reveal_strlit(".---");
    reveal_strlit("-.-");
    reveal_strlit(".-..");
    reveal_strlit("--");
    reveal_strlit("-.");
    reveal_strlit("---");
    reveal_strlit(".--.");
    reveal_strlit("--.-");
    reveal_strlit(".-.");
    reveal_strlit("...");
    reveal_strlit("-");
    reveal_strlit("..-");
    reveal_strlit("...-");
    reveal_strlit(".--");
    reveal_strlit("-..-");
    reveal_strlit("-.--");
    reveal_strlit("--..");
    reveal_strlit("-----");
    reveal_strlit(".----");
    reveal_strlit("..---");
    reveal_strlit("...--");
    reveal_strlit("....-");
    reveal_strlit(".....");
    reveal_strlit("-....");
    reveal_strlit("--...");
    reveal_strlit("---..");
    reveal_strlit("----.");
    reveal_strlit(".-...");
    reveal_strlit(".----.");
    reveal_strlit(".--.-.");
    reveal_strlit("-.--.-");
    reveal_strlit("-.--.");
    reveal_strlit("---...");
    reveal_strlit("--..--");
    reveal_strlit("-...-");
    reveal_strlit("-.-.--");
    reveal_strlit(".-.-.-");
    reveal_strlit("-....-");
    reveal_strlit(".-.-.");
    reveal_strlit(".-..-.");
    reveal_strlit("..--..");
    reveal_strlit("-..-.");
}

/// The timing of every letter begins and ends with the key down.
pub proof fn lemma_letter_keyed(letter: Letter)
    ensures
        keyed(letter.spec_timing()),
{
    let parts = letter.spec_marks().map_values(|mark: Mark| mark.spec_timing());
    lemma_code_shape(letter);
    assert forall|i: int| 0 <= i < parts.len() implies keyed(#[trigger] parts[i]) by {
        assert(parts[i] == letter.spec_marks()[i].spec_timing());
    }
    lemma_spaced_runs(parts, 1);
}

/// The timing of every letter is a run with the key down for each of its
/// marks, of one unit or of three, with one unit between two of them
/// during which the key is up. The number of its runs is odd.
pub proof fn lemma_letter_runs(letter: Letter)
    ensures
        coalesced(letter.spec_timing()) == alternating(
            letter.spec_marks().map_values(|mark: Mark| (Signal::On, mark.units())),
            (Signal::Off, 1nat),
        ),
        coalesced(letter.spec_timing()).len() == 2 * letter.spec_marks().len() - 1,
        forall|i: int|
            0 <= i < coalesced(letter.spec_timing()).len() ==> {
                let run = #[trigger] coalesced(letter.spec_timing())[i];
                if i % 2 == 0 {
                    run.0 == Signal::On && (run.1 == 1 || run.1 == 3)
                } else {
                    run == (Signal::Off, 1nat)
                }
            },
{
    let marks = letter.spec_marks();
    let parts = marks.map_values(|mark: Mark| mark.spec_timing());
    let pressed = marks.map_values(|mark: Mark| (Signal::On, mark.units()));
    lemma_code_shape(letter);
    assert forall|i: int| 0 <= i < parts.len() implies keyed(#[trigger] parts[i]) && coalesced(
        parts[i],
    ) == seq![pressed[i]] by {
        lemma_coalesced_append(Seq::empty(), pressed[i]);
        assert(parts[i] =~= Seq::<Signal>::empty() + units(pressed[i]));
        assert(coalesced(Seq::<Signal>::empty()).push(pressed[i]) =~= seq![pressed[i]]);
    }
    lemma_spaced_runs(parts, 1);
    assert(parts.map_values(|part: Seq<Signal>| coalesced(part)) =~= pressed.map_values(
        |run: (Signal, nat)| seq![run],
    ));
    lemma_alternating(pressed, (Signal::Off, 1nat));
}

} // verus!
