use wordscore::constraint::{find_letter, get_constraints, Constraint};
use wordscore::filter::{filter_word_list, passes_constraint, passes_constraints};
use wordscore::word::Word;

use Constraint::{Gray, Green, Yellow};

fn word(s: &str) -> Word {
    Word::from_str(s).unwrap()
}

fn derive(answer: &str, guess: &str) -> Vec<Constraint> {
    let mut buffer = vec![Gray('Q')];
    get_constraints(&word(answer), &word(guess), &mut buffer);
    buffer
}

#[test]
fn duplicate_letter_scenario() {
    assert_eq!(
        derive("ALLOY", "LOLLY"),
        vec![Green('L', 2), Green('Y', 4), Yellow('L', 0), Yellow('O', 1), Gray('L')]
    );
}

#[test]
fn crate_against_crane() {
    assert_eq!(
        derive("CRANE", "CRATE"),
        vec![Green('C', 0), Green('R', 1), Green('A', 2), Green('E', 4), Gray('T')]
    );
}

#[test]
fn same_word_is_all_green() {
    assert_eq!(
        derive("CRANE", "CRANE"),
        vec![Green('C', 0), Green('R', 1), Green('A', 2), Green('N', 3), Green('E', 4)]
    );
}

#[test]
fn repeated_absent_letter_gives_one_gray() {
    assert_eq!(derive("CRANE", "FUZZY"), vec![Gray('F'), Gray('U'), Gray('Z'), Gray('Y')]);
}

#[test]
fn yellow_consumes_first_free_occurrence() {
    assert_eq!(
        derive("EERIE", "TEPEE"),
        vec![Green('E', 1), Green('E', 4), Yellow('E', 3), Gray('T'), Gray('P')]
    );
}

#[test]
fn find_letter_gives_first_position() {
    assert_eq!(find_letter(&['A', 'L', 'L', 'O', 'Y'], 'L'), 1);
    assert_eq!(find_letter(&['A', 'L', 'L', 'O', 'Y'], 'Z'), 5);
}

#[test]
fn single_constraints() {
    let w = word("ALLOY");
    assert!(passes_constraint(&w, &Green('L', 1)));
    assert!(!passes_constraint(&w, &Green('L', 0)));
    assert!(passes_constraint(&w, &Yellow('O', 1)));
    assert!(!passes_constraint(&w, &Yellow('O', 3)));
    assert!(!passes_constraint(&w, &Yellow('Z', 0)));
    assert!(passes_constraint(&w, &Gray('Z')));
    assert!(!passes_constraint(&w, &Gray('A')));
}

#[test]
fn matched_letters_are_accounted_for() {
    let w = word("ALLOY");
    assert!(!passes_constraints(&w, &[Green('L', 2), Gray('L')]));
    assert!(passes_constraints(&w, &[Green('L', 1), Green('L', 2), Gray('L')]));
    assert!(passes_constraints(&w, &[Yellow('L', 0), Yellow('L', 3), Gray('L')]));
    assert!(!passes_constraints(&w, &[Yellow('L', 0), Gray('L')]));
    assert!(passes_constraints(&w, &[]));
}

#[test]
fn answer_passes_its_own_feedback() {
    let words = ["ALLOY", "LOLLY", "CRANE", "CRATE", "EERIE", "TEPEE", "LLAMA", "SKILL"];
    for a in words {
        for g in words {
            assert!(passes_constraints(&word(a), &derive(a, g)), "{} {}", a, g);
        }
    }
}

#[test]
fn filter_keeps_order_and_duplicates() {
    let pool: Vec<Word> = ["CRANE", "CRATE", "CRANE", "SLATE"].iter().map(|s| word(s)).collect();
    let cs = derive("CRANE", "CRATE");
    let mut out = vec![word("ZZZZZ")];
    filter_word_list(&pool, &cs, &mut out);
    assert_eq!(out, vec![word("CRANE"), word("CRANE")]);
}

#[test]
fn longer_constraints_keep_fewer_words() {
    let pool: Vec<Word> =
        ["CRANE", "CRATE", "TRACE", "SLATE", "ALLOY", "REACT"].iter().map(|s| word(s)).collect();
    let cs = derive("TRACE", "CRATE");
    let mut previous = usize::MAX;
    for k in 0..=cs.len() {
        let mut out = Vec::new();
        filter_word_list(&pool, &cs[..k], &mut out);
        assert!(out.len() <= previous);
        previous = out.len();
    }
    let mut none = Vec::new();
    filter_word_list(&pool, &[], &mut none);
    assert_eq!(none.len(), pool.len());
}
