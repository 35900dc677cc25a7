use wordscore::word::{Word, WordError};

fn word(s: &str) -> Word {
    Word::from_str(s).unwrap()
}

#[test]
fn parse_accepts_five_letters() {
    let w = word("CRANE");
    assert_eq!(w.letters, ['C', 'R', 'A', 'N', 'E']);
}

#[test]
fn parse_rejects_short_text() {
    assert_eq!(Word::from_str("CRAN"), Err(WordError::InvalidLength));
}

#[test]
fn parse_rejects_long_text() {
    assert_eq!(Word::from_str("CRANES"), Err(WordError::InvalidLength));
}

#[test]
fn parse_rejects_empty_text() {
    assert_eq!(Word::from_str(""), Err(WordError::InvalidLength));
}

#[test]
fn parse_counts_characters() {
    let w = word("ÉCRAN");
    assert_eq!(w.letters, ['É', 'C', 'R', 'A', 'N']);
}

#[test]
fn render_writes_letters_in_order() {
    assert_eq!(word("CRANE").to_string(), "CRANE");
    assert_ne!(word("CRANE").to_string(), "");
}

#[test]
fn round_trip_ascii_words() {
    for text in ["ALLOY", "LOLLY", "crate", "a_b_c", "12345", "     "] {
        assert_eq!(word(text).to_string(), text);
    }
}

#[test]
fn equal_words_have_equal_letters() {
    assert_eq!(word("CRANE"), word("CRANE"));
    assert_ne!(word("CRANE"), word("CRATE"));
}
