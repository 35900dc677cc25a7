use vstd::prelude::*;

verus! {

/// Number of letters in every word.
pub const WORD_LENGTH: usize = 5;

/// The character that marks a consumed position in a working copy of a word.
pub const BLANK: char = '_';

/// A fixed-length word.
#[derive(Clone, Copy, Debug, PartialEq, Eq)]
pub struct Word {
    pub letters: [char; WORD_LENGTH],
}

/// Why text could not be read as a word.
#[derive(Clone, Copy, Debug, PartialEq, Eq)]
pub enum WordError {
    /// The text does not hold exactly `WORD_LENGTH` characters.
    InvalidLength,
}

impl View for Word {
    type V = Seq<char>;

    open spec fn view(&self) -> Seq<char> {
        self.letters@
    }
}

/// The letters that text stands for, when it is a word at all.
pub open spec fn parsed(text: Seq<char>) -> Option<Seq<char>> {
    if text.len() == WORD_LENGTH {
        Some(text)
    } else {
        None
    }
}

/// The text that a word is written as.
pub open spec fn rendered(letters: Seq<char>) -> Seq<char> {
    letters
}

/// Relies on String::push: the character is appended at the end.
#[verifier::external_body]
fn push_char(s: &mut String, c: char)
    ensures
        final(s)@ == old(s)@.push(c),
{
    s.push(c);
}

impl Word {
    /// Every word has exactly `WORD_LENGTH` letters.
    pub proof fn lemma_len(self)
        ensures
            self@.len() == WORD_LENGTH,
    {
    }

    /// Reads a word from text, one letter per character.
    pub fn from_str(value: &str) -> (r: Result<Word, WordError>)
        ensures
            r is Ok <==> parsed(value@) is Some,
            r matches Ok(w) ==> parsed(value@) == Some(w@),
            r matches Err(e) ==> e == WordError::InvalidLength,
    {
        let n = value.unicode_len();
        if n != WORD_LENGTH {
            return Err(WordError::InvalidLength);
        }
        let mut letters: [char; WORD_LENGTH] = [BLANK; WORD_LENGTH];
        let mut i: usize = 0;
        while i < WORD_LENGTH
            invariant
                i <= WORD_LENGTH,
                value@.len() == WORD_LENGTH,
                letters@.len() == WORD_LENGTH,
                forall|k: int| 0 <= k < i ==> letters@[k] == value@[k],
            decreases WORD_LENGTH - i,
        {
            letters[i] = value.get_char(i);
            i = i + 1;
        }
        let w = Word { letters };
        assert(w@ =~= value@);
        Ok(w)
    }

    /// Writes the word as text.
    pub fn to_string(&self) -> (r: String)
        ensures
            r@ == rendered(self@),
    {
        let mut s = String::new();
        let mut i: usize = 0;
        while i < WORD_LENGTH
            invariant
                i <= WORD_LENGTH,
                self@.len() == WORD_LENGTH,
                s@ =~= self@.take(i as int),
            decreases WORD_LENGTH - i,
        {
            push_char(&mut s, self.letters[i]);
            i = i + 1;
            assert(s@ =~= self@.take(i as int));
        }
        assert(self@.take(WORD_LENGTH as int) =~= self@);
        s
    }
}

/// Rendering a parsed text gives the text back, and every text of
/// `WORD_LENGTH` characters parses.
pub proof fn lemma_round_trip(text: Seq<char>)
    requires
        text.len() == WORD_LENGTH,
    ensures
        parsed(text) is Some,
        rendered(parsed(text).unwrap()) == text,
{
}

} // verus!
