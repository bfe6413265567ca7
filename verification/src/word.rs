//! Words: the letters of one token of text.

use std::str::FromStr;
use vstd::prelude::*;
use crate::join::{joined, lemma_joined_push};
use crate::key::{coalesced, keyed, lemma_spaced_runs};
use crate::letter::{lemma_letter_keyed, Letter};
use crate::text::uppercase;
use crate::timing::{gap, push_all, push_gap, spaced, Signal};

verus! {

/// The character on which parsing stopped: it has no Morse code.
#[derive(Debug, Clone, Copy, PartialEq, Eq, Structural)]
pub struct ParseWordError {
    pub c: char,
}

impl ParseWordError {
    /// The message for the character that was refused.
    pub fn to_string(&self) -> (text: String)
        ensures
            text@ == "Invalid Morse Code letter: "@.push(self.c),
    {
        let mut text = "Invalid Morse Code letter: ".to_owned();
        text.push(self.c);
        text
    }
}

/// The letters of `text`, character by character, or the first character
/// that is not in the alphabet. No case is changed here.
pub open spec fn resolved(text: Seq<char>) -> Result<Seq<Letter>, ParseWordError>
    decreases text.len(),
{
    if text.len() == 0 {
        Ok(Seq::empty())
    } else {
        match resolved(text.drop_last()) {
            Err(stopped) => Err(stopped),
            Ok(letters) => match Letter::of_char(text.last()) {
                Some(letter) => Ok(letters.push(letter)),
                None => Err((ParseWordError { c: text.last() })),
            },
        }
    }
}

/// The timing of a sequence of letters: the letters' timings, three units
/// apart.
pub open spec fn letters_timing(letters: Seq<Letter>) -> Seq<Signal> {
    spaced(letters.map_values(|letter: Letter| letter.spec_timing()), 3)
}

/// The text of a sequence of letters: their codes, one space apart.
pub open spec fn letters_text(letters: Seq<Letter>) -> Seq<char> {
    joined(letters.map_values(|letter: Letter| letter.code()), seq![' '])
}

/// The letters of one token.
#[derive(Debug)]
pub struct Word {
    letters: Vec<Letter>,
}

impl View for Word {
    type V = Seq<Letter>;

    closed spec fn view(&self) -> Seq<Letter> {
        self.letters@
    }
}

impl DeepView for Word {
    type V = Seq<Letter>;

    open spec fn deep_view(&self) -> Seq<Letter> {
        self@
    }
}

/// What a parse has yielded, with the word taken by its letters.
pub open spec fn parsed(result: Result<Word, ParseWordError>) -> Result<
    Seq<Letter>,
    ParseWordError,
> {
    match result {
        Ok(word) => Ok(word@),
        Err(stopped) => Err(stopped),
    }
}

impl Word {
    /// Resolves every character of `text` through the alphabet as it
    /// stands, and stops at the first that is not in it.
    pub fn resolve(text: &str) -> (result: Result<Word, ParseWordError>)
        ensures
            parsed(result) == resolved(text@),
    {
        let mut letters: Vec<Letter> = Vec::new();
        for c in it: text.chars()
            invariant
                it.seq() == text@,
                resolved(text@.take(it.index())) == Ok::<Seq<Letter>, ParseWordError>(letters@),
        {
            proof {
                assert(text@.take(it.index() + 1).drop_last() =~= text@.take(it.index()));
            }
            match Letter::try_from(&c) {
                Ok(letter) => {
                    letters.push(letter);
                },
                Err(stopped) => {
                    proof {
                        lemma_resolved_stops(text@, it.index() + 1);
                    }
                    return Err(stopped);
                },
            }
        }
        assert(text@.take(text@.len() as int) =~= text@);
        Ok(Word { letters })
    }

    /// Parses one token: the text is brought to upper case, and every
    /// character of the result is resolved through the alphabet.
    pub fn parse(text: &str) -> (result: Result<Word, ParseWordError>)
        ensures
            parsed(result) == resolved(uppercase(text@)),
    {
        let upper = text.to_uppercase();
        Word::resolve(upper.as_str())
    }

    /// The letters of the word.
    pub fn letters(&self) -> (letters: &Vec<Letter>)
        ensures
            letters@ == self@,
    {
        &self.letters
    }

    /// The timing of the word; the word can be asked again.
    pub fn timing(&self) -> (timing: Vec<Signal>)
        ensures
            timing@ == letters_timing(self@),
    {
        let ghost parts = self@.map_values(|letter: Letter| letter.spec_timing());
        let mut timing: Vec<Signal> = Vec::new();
        let mut done: usize = 0;
        while done < self.letters.len()
            invariant
                done <= self.letters.len(),
                parts == self@.map_values(|letter: Letter| letter.spec_timing()),
                timing@ == spaced(parts.take(done as int), 3),
            decreases self.letters.len() - done,
        {
            if done > 0 {
                push_gap(&mut timing, 3);
            }
            let part = self.letters[done].timing();
            push_all(&mut timing, &part);
            proof {
                lemma_joined_push(parts.take(done as int), part@, gap(3));
                assert(parts.take(done as int).push(part@) =~= parts.take(done + 1));
            }
            done = done + 1;
        }
        assert(parts.take(done as int) =~= parts);
        timing
    }

    /// The timing of the word, which is used up.
    pub fn into_timing(self) -> (timing: Vec<Signal>)
        ensures
            timing@ == letters_timing(self@),
    {
        self.timing()
    }

    /// The codes of the letters, one space apart.
    pub fn to_string(&self) -> (text: String)
        ensures
            text@ == letters_text(self@),
    {
        let ghost parts = self@.map_values(|letter: Letter| letter.code());
        let mut text = String::new();
        let mut done: usize = 0;
        while done < self.letters.len()
            invariant
                done <= self.letters.len(),
                parts == self@.map_values(|letter: Letter| letter.code()),
                text@ == joined(parts.take(done as int), seq![' ']),
            decreases self.letters.len() - done,
        {
            if done > 0 {
                text.push(' ');
            }
            let code = self.letters[done].str_ref();
            text.append(code);
            proof {
                lemma_joined_push(parts.take(done as int), code@, seq![' ']);
                assert(parts.take(done as int).push(code@) =~= parts.take(done + 1));
                assert(text@ =~= joined(parts.take(done + 1), seq![' ']));
            }
            done = done + 1;
        }
        assert(parts.take(done as int) =~= parts);
        text
    }
}

impl FromStr for Word {
    type Err = ParseWordError;

    fn from_str(text: &str) -> (result: Result<Word, ParseWordError>)
        ensures
            parsed(result) == resolved(uppercase(text@)),
    {
        Word::parse(text)
    }
}

/// `at` is the place of the first character of `text` that is not in the
/// alphabet.
pub open spec fn first_outside(text: Seq<char>, at: int) -> bool {
    &&& 0 <= at < text.len()
    &&& Letter::of_char(text[at]) is None
    &&& forall|j: int| 0 <= j < at ==> Letter::of_char(#[trigger] text[j]) is Some
}

/// Resolving succeeds on exactly the texts all of whose characters are in
/// the alphabet, and gives the letter of each character in its place. On
/// every other text it stops at the first character that is not in the
/// alphabet, whatever that character is.
pub proof fn lemma_resolved(text: Seq<char>)
    ensures
        match resolved(text) {
            Ok(letters) => {
                &&& letters.len() == text.len()
                &&& forall|i: int|
                    0 <= i < text.len() ==> Letter::of_char(#[trigger] text[i]) == Some(
                        letters[i],
                    )
            },
            Err(stopped) => exists|at: int| #[trigger]
                first_outside(text, at) && stopped.c == text[at],
        },
    decreases text.len(),
{
    if text.len() > 0 {
        let before = text.drop_last();
        lemma_resolved(before);
        match resolved(before) {
            Ok(letters) => {
                assert forall|j: int| 0 <= j < before.len() implies Letter::of_char(
                    #[trigger] text[j],
                ) == Some(letters[j]) by {
                    assert(text[j] == before[j]);
                }
                if Letter::of_char(text.last()) is None {
                    assert(first_outside(text, text.len() - 1));
                }
            },
            Err(stopped) => {
                let at = choose|at: int| #[trigger]
                    first_outside(before, at) && stopped.c == before[at];
                assert forall|j: int| 0 <= j < at implies Letter::of_char(
                    #[trigger] text[j],
                ) is Some by {
                    assert(text[j] == before[j]);
                }
                assert(text[at] == before[at]);
                assert(first_outside(text, at));
            },
        }
    }
}

/// The runs of a word are the runs of its letters, with one run of three
/// units between two letters during which the key is up. The timing of a
/// word that has a letter begins and ends with the key down.
pub proof fn lemma_word_runs(letters: Seq<Letter>)
    ensures
        coalesced(letters_timing(letters)) == joined(
            letters.map_values(|letter: Letter| coalesced(letter.spec_timing())),
            seq![(Signal::Off, 3nat)],
        ),
        letters.len() > 0 ==> keyed(letters_timing(letters)),
{
    let parts = letters.map_values(|letter: Letter| letter.spec_timing());
    assert forall|i: int| 0 <= i < parts.len() implies keyed(#[trigger] parts[i]) by {
        lemma_letter_keyed(letters[i]);
    }
    lemma_spaced_runs(parts, 3);
    assert(parts.map_values(|part: Seq<Signal>| coalesced(part)) =~= letters.map_values(
        |letter: Letter| coalesced(letter.spec_timing()),
    ));
}

/// Once resolving has stopped, it stays stopped on the same character
/// however much text follows.
pub proof fn lemma_resolved_stops(text: Seq<char>, upto: int)
    requires
        0 <= upto <= text.len(),
        resolved(text.take(upto)) is Err,
    ensures
        resolved(text) == resolved(text.take(upto)),
    decreases text.len() - upto,
{
    if upto < text.len() {
        assert(text.take(upto + 1).drop_last() =~= text.take(upto));
        lemma_resolved_stops(text, upto + 1);
    } else {
        assert(text.take(upto) =~= text);
    }
}

} // verus!
