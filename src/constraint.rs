use vstd::prelude::*;
use crate::filter::{all_well_formed, lemma_push_well_formed};
use crate::word::{Word, BLANK, WORD_LENGTH};

verus! {

/// One piece of feedback from comparing a guess with the hidden answer.
#[derive(Clone, Copy, Debug, PartialEq, Eq, Structural)]
pub enum Constraint {
    /// Present, and in the correct place.
    Green(char, usize),
    /// Present, but not in the correct place.
    Yellow(char, usize),
    /// No further occurrence once the greens and yellows are accounted for.
    Gray(char),
}

/// A working state of the derivation: what is left of the answer, what is
/// left of the guess, and the feedback emitted so far.
pub type Derivation = (Seq<char>, Seq<char>, Seq<Constraint>);

/// The first position at or after `j` where `s` holds `c`, or `s.len()`.
pub open spec fn position_from(s: Seq<char>, c: char, j: int) -> int
    decreases s.len() - j,
{
    if j >= s.len() {
        s.len() as int
    } else if s[j] == c {
        j
    } else {
        position_from(s, c, j + 1)
    }
}

/// The first position where `s` holds `c`, or `s.len()`.
pub open spec fn first_position(s: Seq<char>, c: char) -> int {
    position_from(s, c, 0)
}

/// The exact-match pass over the first `n` positions.
pub open spec fn green_pass(answer: Seq<char>, guess: Seq<char>, n: int) -> Derivation
    decreases n,
{
    if n <= 0 {
        (answer, guess, Seq::empty())
    } else {
        let d = green_pass(answer, guess, n - 1);
        let i = n - 1;
        if d.0[i] == d.1[i] {
            (d.0.update(i, BLANK), d.1.update(i, BLANK), d.2.push(Constraint::Green(d.1[i], i as usize)))
        } else {
            d
        }
    }
}

/// The displaced-match pass over the first `n` positions, from state `start`.
pub open spec fn yellow_pass(start: Derivation, n: int) -> Derivation
    decreases n,
{
    if n <= 0 {
        start
    } else {
        let d = yellow_pass(start, n - 1);
        let i = n - 1;
        let c = d.1[i];
        let j = first_position(d.0, c);
        if c != BLANK && j < d.0.len() {
            (d.0.update(j, BLANK), d.1.update(i, BLANK), d.2.push(Constraint::Yellow(c, i as usize)))
        } else {
            d
        }
    }
}

/// Whether the absence pass emits a gray for `c`, given what it emitted so far.
#[verifier::opaque]
pub open spec fn emits_gray(out: Seq<Constraint>, c: char) -> bool {
    c != BLANK && !out.contains(Constraint::Gray(c))
}

/// The absence pass over the first `n` positions of what is left of the guess.
pub open spec fn gray_pass(guess: Seq<char>, out: Seq<Constraint>, n: int) -> Seq<Constraint>
    decreases n,
{
    if n <= 0 {
        out
    } else {
        gray_step(gray_pass(guess, out, n - 1), guess[n - 1])
    }
}

/// One step of the absence pass: a gray for `c` unless it is not owed.
pub open spec fn gray_step(out: Seq<Constraint>, c: char) -> Seq<Constraint> {
    if emits_gray(out, c) {
        out.push(Constraint::Gray(c))
    } else {
        out
    }
}

/// The feedback that a guess receives against an answer: greens in guess
/// order, then yellows in guess order, then one gray per distinct letter left.
pub open spec fn feedback(answer: Seq<char>, guess: Seq<char>) -> Seq<Constraint> {
    let g = green_pass(answer, guess, WORD_LENGTH as int);
    let y = yellow_pass(g, WORD_LENGTH as int);
    gray_pass(y.1, y.2, WORD_LENGTH as int)
}

/// The first position of `letters` that holds `c`, if any.
pub fn find_letter(letters: &[char; WORD_LENGTH], c: char) -> (r: usize)
    ensures
        r as int == first_position(letters@, c),
        r <= WORD_LENGTH,
{
    let mut j: usize = 0;
    while j < WORD_LENGTH
        invariant
            j <= WORD_LENGTH,
            letters@.len() == WORD_LENGTH,
            position_from(letters@, c, 0) == position_from(letters@, c, j as int),
        decreases WORD_LENGTH - j,
    {
        if letters[j] == c {
            return j;
        }
        j = j + 1;
    }
    j
}

/// Whether `buffer` already holds `Gray(c)`.
fn has_gray(buffer: &Vec<Constraint>, c: char) -> (r: bool)
    ensures
        r == buffer@.contains(Constraint::Gray(c)),
{
    let mut k: usize = 0;
    while k < buffer.len()
        invariant
            k <= buffer@.len(),
            forall|m: int| 0 <= m < k ==> buffer@[m] != Constraint::Gray(c),
        decreases buffer@.len() - k,
    {
        if buffer[k] == Constraint::Gray(c) {
            return true;
        }
        k = k + 1;
    }
    false
}

/// Fills `buffer` with the feedback that `guess` receives against `answer`.
pub fn get_constraints(answer: &Word, guess: &Word, buffer: &mut Vec<Constraint>)
    ensures
        final(buffer)@ == feedback(answer@, guess@),
        all_well_formed(final(buffer)@),
{
    buffer.clear();
    let mut a: [char; WORD_LENGTH] = answer.letters;
    let mut g: [char; WORD_LENGTH] = guess.letters;

    let mut i: usize = 0;
    while i < WORD_LENGTH
        invariant
            i <= WORD_LENGTH,
            a@.len() == WORD_LENGTH,
            g@.len() == WORD_LENGTH,
            green_pass(answer@, guess@, i as int) == (a@, g@, buffer@),
            all_well_formed(buffer@),
        decreases WORD_LENGTH - i,
    {
        let c = g[i];
        if a[i] == c {
            proof {
                lemma_push_well_formed(buffer@, Constraint::Green(c, i));
            }
            buffer.push(Constraint::Green(c, i));
            a[i] = BLANK;
            g[i] = BLANK;
        }
        i = i + 1;
    }

    let ghost start = green_pass(answer@, guess@, WORD_LENGTH as int);
    let mut i: usize = 0;
    while i < WORD_LENGTH
        invariant
            i <= WORD_LENGTH,
            a@.len() == WORD_LENGTH,
            g@.len() == WORD_LENGTH,
            yellow_pass(start, i as int) == (a@, g@, buffer@),
            all_well_formed(buffer@),
        decreases WORD_LENGTH - i,
    {
        let c = g[i];
        if c != BLANK {
            let j = find_letter(&a, c);
            if j < WORD_LENGTH {
                proof {
                    lemma_push_well_formed(buffer@, Constraint::Yellow(c, i));
                }
                buffer.push(Constraint::Yellow(c, i));
                a[j] = BLANK;
                g[i] = BLANK;
            }
        }
        i = i + 1;
    }

    let ghost left = g@;
    let ghost base = buffer@;
    let mut i: usize = 0;
    while i < WORD_LENGTH
        invariant
            i <= WORD_LENGTH,
            g@ == left,
            g@.len() == WORD_LENGTH,
            gray_pass(left, base, i as int) == buffer@,
            all_well_formed(buffer@),
        decreases WORD_LENGTH - i,
    {
        let c = g[i];
        let fresh = c != BLANK && !has_gray(buffer, c);
        proof {
            reveal(emits_gray);
        }
        if fresh {
            proof {
                lemma_push_well_formed(buffer@, Constraint::Gray(c));
            }
            buffer.push(Constraint::Gray(c));
        }
        i = i + 1;
    }
}

} // verus!
