//! Phrases: the words of one line of text.

use std::str::FromStr;
use vstd::prelude::*;
use crate::join::{joined, lemma_joined_push};
use crate::key::{coalesced, keyed, lemma_spaced_runs};
use crate::letter::Letter;
use crate::text::{separates, uppercase};
use crate::timing::{gap, push_all, push_gap, spaced, Signal};
use crate::word::{
    lemma_word_runs, letters_text, letters_timing, resolved, ParseWordError, Word,
};

verus! {

/// The tokens of a text: its maximal stretches without whitespace, in
/// order. No token is empty.
pub open spec fn tokens(text: Seq<char>) -> Seq<Seq<char>>
    decreases text.len(),
{
    if text.len() == 0 {
        Seq::empty()
    } else {
        let before = tokens(text.drop_last());
        if separates(text.last()) {
            before
        } else if text.len() >= 2 && !separates(text[text.len() - 2]) {
            before.update(before.len() - 1, before.last().push(text.last()))
        } else {
            before.push(seq![text.last()])
        }
    }
}

/// The words of the tokens, each token brought to upper case and resolved,
/// or the character on which the first token that fails has stopped.
pub open spec fn resolved_all(tokens: Seq<Seq<char>>) -> Result<Seq<Seq<Letter>>, ParseWordError>
    decreases tokens.len(),
{
    if tokens.len() == 0 {
        Ok(Seq::empty())
    } else {
        match resolved_all(tokens.drop_last()) {
            Err(stopped) => Err(stopped),
            Ok(words) => match resolved(uppercase(tokens.last())) {
                Ok(word) => Ok(words.push(word)),
                Err(stopped) => Err(stopped),
            },
        }
    }
}

/// The timing of a sequence of words: the words' timings, seven units
/// apart.
pub open spec fn words_timing(words: Seq<Seq<Letter>>) -> Seq<Signal> {
    spaced(words.map_values(|word: Seq<Letter>| letters_timing(word)), 7)
}

/// The text of a sequence of words: the words' texts, three spaces apart.
pub open spec fn words_text(words: Seq<Seq<Letter>>) -> Seq<char> {
    joined(words.map_values(|word: Seq<Letter>| letters_text(word)), seq![' ', ' ', ' '])
}

/// No token is empty and none holds whitespace; a text that ends outside
/// whitespace ends in a token.
pub proof fn lemma_tokens_shape(text: Seq<char>)
    ensures
        forall|k: int|
            0 <= k < tokens(text).len() ==> (#[trigger] tokens(text)[k]).len() > 0,
        forall|k: int, j: int|
            0 <= k < tokens(text).len() && 0 <= j < tokens(text)[k].len() ==> !separates(
                #[trigger] tokens(text)[k][j],
            ),
        text.len() > 0 && !separates(text.last()) ==> tokens(text).len() > 0,
    decreases text.len(),
{
    if text.len() > 0 {
        let before = tokens(text.drop_last());
        let found = tokens(text);
        lemma_tokens_shape(text.drop_last());
        if text.len() >= 2 {
            assert(text.drop_last().last() == text[text.len() - 2]);
        }
        assert forall|k: int| 0 <= k < found.len() implies (#[trigger] found[k]).len() > 0 by {
            if k < before.len() - 1 {
                assert(found[k] == before[k]);
            }
        }
        assert forall|k: int, j: int|
            0 <= k < found.len() && 0 <= j < found[k].len() implies !separates(
            #[trigger] found[k][j],
        ) by {
            if k < before.len() - 1 {
                assert(found[k][j] == before[k][j]);
            } else if k < before.len() && j < before[k].len() {
                assert(found[k][j] == before[k][j]);
            }
        }
    }
}

/// A text has no token exactly if it is made of whitespace alone.
pub proof fn lemma_tokens_blank(text: Seq<char>)
    ensures
        tokens(text).len() == 0 <==> forall|i: int|
            0 <= i < text.len() ==> separates(#[trigger] text[i]),
    decreases text.len(),
{
    if text.len() > 0 {
        let before = text.drop_last();
        lemma_tokens_blank(before);
        lemma_tokens_shape(before);
        assert(forall|i: int| 0 <= i < before.len() ==> before[i] == text[i]);
        if tokens(text).len() == 0 {
            assert(separates(text.last()));
            assert forall|i: int| 0 <= i < text.len() implies separates(#[trigger] text[i]) by {
                if i < before.len() {
                    assert(separates(before[i]));
                }
            }
        }
        if forall|i: int| 0 <= i < text.len() ==> separates(#[trigger] text[i]) {
            assert(separates(text[text.len() - 1]));
            assert forall|i: int| 0 <= i < before.len() implies separates(
                #[trigger] before[i],
            ) by {
                assert(separates(text[i]));
            }
        }
    }
}

/// The runs of a phrase whose words all have a letter are the runs of its
/// words, with one run of seven units between two words during which the
/// key is up.
pub proof fn lemma_phrase_runs(words: Seq<Seq<Letter>>)
    requires
        forall|i: int| 0 <= i < words.len() ==> (#[trigger] words[i]).len() > 0,
    ensures
        coalesced(words_timing(words)) == joined(
            words.map_values(|word: Seq<Letter>| coalesced(letters_timing(word))),
            seq![(Signal::Off, 7nat)],
        ),
        words.len() > 0 ==> keyed(words_timing(words)),
{
    let parts = words.map_values(|word: Seq<Letter>| letters_timing(word));
    assert forall|i: int| 0 <= i < parts.len() implies keyed(#[trigger] parts[i]) by {
        lemma_word_runs(words[i]);
    }
    lemma_spaced_runs(parts, 7);
    assert(parts.map_values(|part: Seq<Signal>| coalesced(part)) =~= words.map_values(
        |word: Seq<Letter>| coalesced(letters_timing(word)),
    ));
}

/// The text of a phrase without words parses to that phrase again. A
/// phrase with words does not come back from its text: the text is made of
/// dots and dashes, which are letters of the alphabet themselves.
pub proof fn lemma_round_trip(text: Seq<char>)
    requires
        Phrase::spec_parse(text) is Ok,
        Phrase::spec_parse(text)->Ok_0.len() == 0,
    ensures
        Phrase::spec_parse(words_text(Phrase::spec_parse(text)->Ok_0)) == Phrase::spec_parse(
            text,
        ),
{
    let words = Phrase::spec_parse(text)->Ok_0;
    assert(words =~= Seq::<Seq<Letter>>::empty());
    assert(words_text(words) =~= Seq::<char>::empty());
}

/// A text of whitespace alone, and no other text, parses to the phrase
/// without words, and that phrase has the empty timing.
pub proof fn lemma_blank(text: Seq<char>)
    ensures
        Phrase::spec_parse(text) == Ok::<Seq<Seq<Letter>>, ParseWordError>(Seq::empty())
            <==> forall|i: int| 0 <= i < text.len() ==> separates(#[trigger] text[i]),
        words_timing(Seq::empty()) == Seq::<Signal>::empty(),
{
    lemma_tokens_blank(text);
    let found = tokens(text);
    if found.len() > 0 {
        match resolved_all(found.drop_last()) {
            Ok(words) => {
                match resolved(uppercase(found.last())) {
                    Ok(word) => {
                        assert(words.push(word).len() > 0);
                    },
                    Err(_) => {},
                }
            },
            Err(_) => {},
        }
    }
}

/// Splits a text into its tokens.
pub fn split(text: &str) -> (found: Vec<String>)
    ensures
        found.deep_view() == tokens(text@),
{
    let mut found: Vec<String> = Vec::new();
    let mut current = String::new();
    let mut inside = false;
    assert(found.deep_view() =~= tokens(text@.take(0)));
    for c in it: text.chars()
        invariant
            it.seq() == text@,
            inside <==> it.index() > 0 && !separates(text@[it.index() - 1]),
            inside ==> tokens(text@.take(it.index())) == found.deep_view().push(current@),
            !inside ==> tokens(text@.take(it.index())) == found.deep_view() && current@.len()
                == 0,
    {
        let ghost seen = text@.take(it.index());
        let ghost next = text@.take(it.index() + 1);
        let ghost before = found.deep_view();
        let ghost token = current@;
        proof {
            assert(next.drop_last() =~= seen);
            assert(next.last() == c);
            if it.index() > 0 {
                assert(next[next.len() - 2] == text@[it.index() - 1]);
            }
        }
        if c.is_whitespace() {
            if inside {
                found.push(current);
                current = String::new();
                inside = false;
                assert(found.deep_view() =~= before.push(token));
            }
        } else {
            current.push(c);
            proof {
                if inside {
                    let open = before.push(token);
                    assert(open.update(open.len() - 1, open.last().push(c)) =~= before.push(
                        current@,
                    ));
                } else {
                    assert(current@ =~= seq![c]);
                }
            }
            inside = true;
        }
    }
    assert(text@.take(text@.len() as int) =~= text@);
    if inside {
        let ghost before = found.deep_view();
        found.push(current);
        assert(found.deep_view() =~= before.push(current@));
    }
    found
}

/// The words of one line of text.
#[derive(Debug)]
pub struct Phrase {
    words: Vec<Word>,
}

impl View for Phrase {
    type V = Seq<Seq<Letter>>;

    closed spec fn view(&self) -> Seq<Seq<Letter>> {
        self.words.deep_view()
    }
}

/// What a parse has yielded, with the phrase taken by its words.
pub open spec fn parsed_phrase(result: Result<Phrase, ParseWordError>) -> Result<
    Seq<Seq<Letter>>,
    ParseWordError,
> {
    match result {
        Ok(phrase) => Ok(phrase@),
        Err(stopped) => Err(stopped),
    }
}

impl Phrase {
    /// The phrase that a text parses to.
    pub open spec fn spec_parse(text: Seq<char>) -> Result<Seq<Seq<Letter>>, ParseWordError> {
        resolved_all(tokens(text))
    }

    /// Parses a line of text: every token becomes a word, and the first
    /// token that fails makes the whole parse fail, with the character on
    /// which it stopped.
    pub fn parse(text: &str) -> (result: Result<Phrase, ParseWordError>)
        ensures
            parsed_phrase(result) == Phrase::spec_parse(text@),
    {
        let found = split(text);
        let mut words: Vec<Word> = Vec::new();
        let mut done: usize = 0;
        assert(found.deep_view().take(0).len() == 0);
        assert(words.deep_view() =~= Seq::<Seq<Letter>>::empty());
        while done < found.len()
            invariant
                done <= found.len(),
                found.deep_view() == tokens(text@),
                resolved_all(found.deep_view().take(done as int)) == Ok::<
                    Seq<Seq<Letter>>,
                    ParseWordError,
                >(words.deep_view()),
            decreases found.len() - done,
        {
            let ghost before = words.deep_view();
            proof {
                assert(found.deep_view().take(done + 1).drop_last() =~= found.deep_view().take(
                    done as int,
                ));
                assert(found.deep_view().take(done + 1).last() == found[done as int]@);
            }
            match Word::parse(found[done].as_str()) {
                Ok(word) => {
                    words.push(word);
                    assert(words.deep_view() =~= before.push(word@));
                },
                Err(stopped) => {
                    proof {
                        lemma_resolved_all_stops(found.deep_view(), done + 1);
                    }
                    return Err(stopped);
                },
            }
            done = done + 1;
        }
        assert(found.deep_view().take(done as int) =~= found.deep_view());
        Ok(Phrase { words })
    }

    /// The words of the phrase.
    pub fn words(&self) -> (words: &Vec<Word>)
        ensures
            words.deep_view() == self@,
    {
        &self.words
    }

    /// Whether the phrase has no word: there is nothing to transmit then.
    pub fn is_empty(&self) -> (empty: bool)
        ensures
            empty == (self@.len() == 0),
    {
        self.words.len() == 0
    }

    /// The timing of the phrase; the phrase can be asked again.
    pub fn timing(&self) -> (timing: Vec<Signal>)
        ensures
            timing@ == words_timing(self@),
    {
        let ghost parts = self@.map_values(|word: Seq<Letter>| letters_timing(word));
        let mut timing: Vec<Signal> = Vec::new();
        let mut done: usize = 0;
        while done < self.words.len()
            invariant
                done <= self.words.len(),
                parts == self@.map_values(|word: Seq<Letter>| letters_timing(word)),
                timing@ == spaced(parts.take(done as int), 7),
            decreases self.words.len() - done,
        {
            if done > 0 {
                push_gap(&mut timing, 7);
            }
            let part = self.words[done].timing();
            push_all(&mut timing, &part);
            proof {
                lemma_joined_push(parts.take(done as int), part@, gap(7));
                assert(parts.take(done as int).push(part@) =~= parts.take(done + 1));
            }
            done = done + 1;
        }
        assert(parts.take(done as int) =~= parts);
        timing
    }

    /// The timing of the phrase, which is used up.
    pub fn into_timing(self) -> (timing: Vec<Signal>)
        ensures
            timing@ == words_timing(self@),
    {
        self.timing()
    }

    /// The texts of the words, three spaces apart.
    pub fn to_string(&self) -> (text: String)
        ensures
            text@ == words_text(self@),
    {
        let ghost sep = seq![' ', ' ', ' '];
        let ghost parts = self@.map_values(|word: Seq<Letter>| letters_text(word));
        let mut text = String::new();
        let mut done: usize = 0;
        while done < self.words.len()
            invariant
                done <= self.words.len(),
                sep == seq![' ', ' ', ' '],
                parts == self@.map_values(|word: Seq<Letter>| letters_text(word)),
                text@ == joined(parts.take(done as int), sep),
            decreases self.words.len() - done,
        {
            let ghost before = text@;
            if done > 0 {
                text.push(' ');
                text.push(' ');
                text.push(' ');
                assert(text@ =~= before + sep);
            }
            let part = self.words[done].to_string();
            text.append(part.as_str());
            proof {
                lemma_joined_push(parts.take(done as int), part@, sep);
                assert(parts.take(done as int).push(part@) =~= parts.take(done + 1));
            }
            done = done + 1;
        }
        assert(parts.take(done as int) =~= parts);
        text
    }
}

impl FromStr for Phrase {
    type Err = ParseWordError;

    fn from_str(text: &str) -> (result: Result<Phrase, ParseWordError>)
        ensures
            parsed_phrase(result) == Phrase::spec_parse(text@),
    {
        Phrase::parse(text)
    }
}

/// Once a token has failed, the parse stays failed on the same character
/// however many tokens follow.
pub proof fn lemma_resolved_all_stops(tokens: Seq<Seq<char>>, upto: int)
    requires
        0 <= upto <= tokens.len(),
        resolved_all(tokens.take(upto)) is Err,
    ensures
        resolved_all(tokens) == resolved_all(tokens.take(upto)),
    decreases tokens.len() - upto,
{
    if upto < tokens.len() {
        assert(tokens.take(upto + 1).drop_last() =~= tokens.take(upto));
        lemma_resolved_all_stops(tokens, upto + 1);
    } else {
        assert(tokens.take(upto) =~= tokens);
    }
}

} // verus!
