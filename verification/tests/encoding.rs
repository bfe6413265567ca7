use morseqtt::letter::Letter;
use morseqtt::mark::Mark;
use morseqtt::phrase::{split, Phrase};
use morseqtt::timing::{render, Signal};
use morseqtt::word::{ParseWordError, Word};
use std::str::FromStr;

fn morse() -> Vec<Letter> {
    vec![Letter::M, Letter::O, Letter::R, Letter::S, Letter::E]
}

fn drawn(timing: &Vec<Signal>) -> String {
    timing
        .iter()
        .map(|x| x.to_string())
        .collect::<Vec<String>>()
        .join("")
}

#[test]
fn phrase_parse() {
    assert_eq!(
        "MORSE CODE".parse::<Phrase>().unwrap().to_string(),
        "-- --- .-. ... .   -.-. --- -.. ."
    );
}

#[test]
fn timing() {
    assert_eq!(
        drawn(&"MORSE CODE".parse::<Phrase>().unwrap().timing()),
        "===.===...===.===.===...=.===.=...=.=.=...=.......===.=.===.=...===.===.===...===.=.=...="
    );
}

#[test]
fn word_from_str() {
    let w = Word::from_str("MORSE").unwrap();
    assert_eq!(*w.letters(), morse());
}

#[test]
fn word_from_str_lower() {
    let w = Word::from_str("morse").unwrap();
    assert_eq!(*w.letters(), morse());
}

#[test]
fn word_parse() {
    let w: Word = "MORSE".parse().unwrap();
    assert_eq!(*w.letters(), morse());
}

#[test]
fn word_display() {
    let w: Word = "MORSE".parse().unwrap();
    assert_eq!(w.to_string(), "-- --- .-. ... .");
}

#[test]
fn word_invalid_char() {
    assert!(Word::from_str("MORSE ").is_err());
}

#[test]
#[allow(non_snake_case)]
fn display_A() {
    assert_eq!(Letter::from('A').to_string(), ".-");
}

#[test]
#[allow(non_snake_case)]
fn from_M() {
    assert_eq!(Letter::from('M').to_string(), "--");
}

#[test]
fn from_0() {
    assert_eq!(Letter::from('0').to_string(), "-----");
}

#[test]
fn from_period() {
    assert_eq!(Letter::from('.').to_string(), ".-.-.-");
}

#[test]
fn from_apostrophe() {
    assert_eq!(Letter::from('\'').to_string(), ".----.");
}

#[test]
fn as_marks() {
    assert_eq!(Letter::M.marks(), vec![Mark::Dash, Mark::Dash]);
}

#[test]
#[allow(non_snake_case)]
fn try_from_M() {
    assert_eq!(Letter::try_from(&'M').unwrap().to_string(), "--");
}

#[test]
fn valid_char() {
    assert!(Letter::is_valid('M'));
    assert!(!Letter::is_valid('m'));
    assert!(!Letter::is_valid(' '));
}

#[test]
fn try_from_m() {
    assert!(Letter::try_from(&'m').is_err());
}

#[test]
fn try_from_space() {
    assert!(Letter::try_from(&' ').is_err());
}

#[test]
fn display_dot() {
    assert_eq!(Mark::Dot.to_string(), ".");
}

#[test]
fn display_dash() {
    assert_eq!(Mark::Dash.to_string(), "-");
}

#[test]
fn convert_dot() {
    assert_eq!(Mark::from('.').to_string(), ".");
}

#[test]
fn convert_dash() {
    assert_eq!(Mark::from('-').to_string(), "-");
}

#[test]
fn signal_glyphs() {
    assert_eq!(Signal::On.to_string(), "=");
    assert_eq!(Signal::Off.to_string(), ".");
    assert_eq!(render(&vec![Signal::On, Signal::Off, Signal::Off, Signal::On]), "=..=");
    assert_eq!(render(&Vec::new()), "");
}

#[test]
fn mark_timing_is_one_or_three_units() {
    assert_eq!(Mark::Dot.timing(), vec![Signal::On]);
    assert_eq!(Mark::Dash.timing(), vec![Signal::On, Signal::On, Signal::On]);
}

#[test]
fn letter_timing_has_unit_gaps() {
    assert_eq!(render(&Letter::E.timing()), "=");
    assert_eq!(render(&Letter::T.timing()), "===");
    assert_eq!(render(&Letter::A.timing()), "=.===");
    assert_eq!(render(&Letter::Query.timing()), "=.=.===.===.=.=");
}

#[test]
fn word_timing_has_three_unit_gaps() {
    let w = Word::parse("ET").unwrap();
    assert_eq!(render(&w.timing()), "=...===");
    assert_eq!(render(&w.timing()), render(&w.into_timing()));
    assert_eq!(render(&Word::parse("").unwrap().timing()), "");
}

#[test]
fn phrase_timing_has_seven_unit_gaps() {
    let p = Phrase::parse("E T").unwrap();
    assert_eq!(render(&p.timing()), "=.......===");
    let again = p.timing();
    assert_eq!(again, p.into_timing());
}

#[test]
fn every_code_is_read_from_the_table() {
    let all = "ABCDEFGHIJKLMNOPQRSTUVWXYZ0123456789&'@)(:,=!.-+\"?/";
    assert_eq!(all.chars().count(), 51);
    for c in all.chars() {
        let letter = Letter::from(c);
        assert_eq!(Letter::lookup(c), Some(letter));
        let marks: String = letter.marks().iter().map(|m| m.to_string()).collect();
        assert_eq!(marks, letter.str_ref());
        assert!(!marks.is_empty() && marks.len() <= 6);
    }
}

#[test]
fn letter_runs_alternate() {
    let all = "ABCDEFGHIJKLMNOPQRSTUVWXYZ0123456789&'@)(:,=!.-+\"?/";
    for c in all.chars() {
        let runs = morseqtt::key::coalesce(&Letter::from(c).timing());
        assert_eq!(runs.len() % 2, 1);
        for (i, run) in runs.iter().enumerate() {
            if i % 2 == 0 {
                assert_eq!(run.signal, Signal::On);
                assert!(run.count == 1 || run.count == 3);
            } else {
                assert_eq!(run.signal, Signal::Off);
                assert_eq!(run.count, 1);
            }
        }
    }
}

#[test]
fn lookup_misses_outside_the_alphabet() {
    assert_eq!(Letter::lookup('a'), None);
    assert_eq!(Letter::lookup(' '), None);
    assert_eq!(Letter::lookup('#'), None);
    assert_eq!(Letter::try_from(&'#'), Err(ParseWordError { c: '#' }));
    assert_eq!(Letter::try_from(&'/'), Ok(Letter::Slash));
}

#[test]
fn resolve_changes_no_case() {
    assert_eq!(Word::resolve("morse").unwrap_err(), ParseWordError { c: 'm' });
    assert_eq!(*Word::resolve("SOS").unwrap().letters(), vec![Letter::S, Letter::O, Letter::S]);
    assert!(Word::resolve("").unwrap().letters().is_empty());
}

#[test]
fn parse_reports_the_first_bad_character() {
    assert_eq!(Word::parse("MORSE ").unwrap_err(), ParseWordError { c: ' ' });
    assert_eq!(Word::parse("a#b%").unwrap_err(), ParseWordError { c: '#' });
    assert_eq!(Word::parse("A B").unwrap_err(), ParseWordError { c: ' ' });
    assert_eq!(Phrase::parse("ok #1 %2").unwrap_err(), ParseWordError { c: '#' });
    assert_eq!(Phrase::parse("good b_d w*rse").unwrap_err(), ParseWordError { c: '_' });
}

#[test]
fn parse_brings_text_to_upper_case() {
    assert_eq!(Phrase::parse("sos").unwrap().to_string(), "... --- ...");
    assert_eq!(
        *Word::parse("\u{df}").unwrap().letters(),
        vec![Letter::S, Letter::S]
    );
}

#[test]
fn split_drops_whitespace() {
    assert_eq!(split("  MORSE \t CODE\n"), vec!["MORSE".to_string(), "CODE".to_string()]);
    assert_eq!(split("a\u{a0}b\u{3000}c"), vec!["a".to_string(), "b".to_string(), "c".to_string()]);
    assert_eq!(split("one"), vec!["one".to_string()]);
    assert!(split("").is_empty());
    assert!(split(" \t\r\n").is_empty());
}

#[test]
fn blank_text_is_an_empty_phrase() {
    for text in ["", " ", "\t \n"] {
        let p = Phrase::parse(text).unwrap();
        assert!(p.is_empty());
        assert!(p.words().is_empty());
        assert_eq!(p.to_string(), "");
        assert!(p.timing().is_empty());
    }
    assert!(!Phrase::parse("E").unwrap().is_empty());
}

#[test]
fn spacing_of_the_text_does_not_matter() {
    let a = Phrase::parse("morse   code").unwrap();
    let b = Phrase::parse(" MORSE\tCODE ").unwrap();
    assert_eq!(a.to_string(), b.to_string());
    assert_eq!(a.timing(), b.timing());
    assert_eq!(a.words().len(), 2);
    assert_eq!(*a.words()[1].letters(), vec![Letter::C, Letter::O, Letter::D, Letter::E]);
}

#[test]
fn rendering_parses_again_only_as_punctuation() {
    let first = Phrase::parse("").unwrap();
    let again = Phrase::parse(&first.to_string()).unwrap();
    assert_eq!(again.to_string(), first.to_string());
    assert!(again.is_empty());
    let e = Phrase::parse("E").unwrap();
    let re = Phrase::parse(&e.to_string()).unwrap();
    assert_eq!(*re.words()[0].letters(), vec![Letter::Period]);
}

#[test]
fn error_names_the_character() {
    let stopped = Word::parse("caf\u{e9}").unwrap_err();
    assert_eq!(stopped, ParseWordError { c: '\u{c9}' });
    assert_eq!(stopped.to_string(), "Invalid Morse Code letter: \u{c9}");
    assert_eq!(
        Phrase::parse("a_b").unwrap_err().to_string(),
        "Invalid Morse Code letter: _"
    );
}

#[test]
fn morse_code_in_units() {
    let phrase = Phrase::parse("MORSE CODE").unwrap();
    assert_eq!(phrase.timing().len(), 89);
    assert_eq!(phrase.words().len(), 2);
    assert_eq!(render(&phrase.words()[0].timing()), "===.===...===.===.===...=.===.=...=.=.=...=");
}
