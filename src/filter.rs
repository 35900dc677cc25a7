use vstd::prelude::*;
use crate::constraint::{find_letter, first_position, position_from, Constraint};
use crate::word::{Word, BLANK, WORD_LENGTH};

verus! {

/// A constraint whose position, if it has one, lies inside a word.
pub open spec fn well_formed(c: Constraint) -> bool {
    match c {
        Constraint::Green(_, i) => i < WORD_LENGTH,
        Constraint::Yellow(_, i) => i < WORD_LENGTH,
        Constraint::Gray(_) => true,
    }
}

/// Every constraint of `cs` is well formed.
pub open spec fn all_well_formed(cs: Seq<Constraint>) -> bool {
    forall|k: int| 0 <= k < cs.len() ==> well_formed(#[trigger] cs[k])
}

/// Appending a well-formed constraint keeps a sequence well formed.
pub proof fn lemma_push_well_formed(cs: Seq<Constraint>, c: Constraint)
    requires
        all_well_formed(cs),
        well_formed(c),
    ensures
        all_well_formed(cs.push(c)),
{
    assert forall|k: int| 0 <= k < cs.push(c).len() implies well_formed(#[trigger] cs.push(c)[k]) by {
        if k < cs.len() {
            assert(cs.push(c)[k] == cs[k]);
        }
    }
}

/// Whether what is left of a word meets one constraint.
pub open spec fn passes(w: Seq<char>, c: Constraint) -> bool {
    match c {
        Constraint::Green(ch, i) => w[i as int] == ch,
        Constraint::Yellow(ch, i) => w.contains(ch) && w[i as int] != ch,
        Constraint::Gray(ch) => !w.contains(ch),
    }
}

/// What is left of a word once a constraint has accounted for a letter.
pub open spec fn consume(w: Seq<char>, c: Constraint) -> Seq<char> {
    match c {
        Constraint::Green(_, i) => w.update(i as int, BLANK),
        Constraint::Yellow(ch, _) => {
            let j = first_position(w, ch);
            if j < w.len() {
                w.update(j, BLANK)
            } else {
                w
            }
        },
        Constraint::Gray(_) => w,
    }
}

/// What is left of a word once every constraint of `cs` has accounted for
/// its letter, in order.
pub open spec fn consumed(w: Seq<char>, cs: Seq<Constraint>) -> Seq<char>
    decreases cs.len(),
{
    if cs.len() == 0 {
        w
    } else {
        consume(consumed(w, cs.drop_last()), cs.last())
    }
}

/// Whether a word meets every constraint of `cs`, each checked against what
/// the constraints before it have left of the word.
pub open spec fn passes_all(w: Seq<char>, cs: Seq<Constraint>) -> bool
    decreases cs.len(),
{
    if cs.len() == 0 {
        true
    } else {
        passes_all(w, cs.drop_last()) && passes(consumed(w, cs.drop_last()), cs.last())
    }
}

/// The words of `pool` that meet `cs`, in their order.
pub open spec fn filter_pool(pool: Seq<Word>, cs: Seq<Constraint>) -> Seq<Word>
    decreases pool.len(),
{
    if pool.len() == 0 {
        Seq::empty()
    } else {
        let rest = filter_pool(pool.drop_last(), cs);
        if passes_all(pool.last()@, cs) {
            rest.push(pool.last())
        } else {
            rest
        }
    }
}

/// `position_from` finds an occurrence exactly when there is one.
pub proof fn lemma_position_from(s: Seq<char>, c: char, j: int)
    requires
        0 <= j <= s.len(),
    ensures
        j <= position_from(s, c, j) <= s.len(),
        position_from(s, c, j) < s.len() ==> s[position_from(s, c, j)] == c,
        position_from(s, c, j) == s.len() ==> forall|k: int| j <= k < s.len() ==> s[k] != c,
    decreases s.len() - j,
{
    if j < s.len() && s[j] != c {
        lemma_position_from(s, c, j + 1);
    }
}

/// `first_position` finds an occurrence exactly when the sequence holds one.
pub proof fn lemma_first_position(s: Seq<char>, c: char)
    ensures
        0 <= first_position(s, c) <= s.len(),
        first_position(s, c) < s.len() <==> s.contains(c),
        first_position(s, c) < s.len() ==> s[first_position(s, c)] == c,
{
    lemma_position_from(s, c, 0);
}

/// A word that meets a sequence of constraints meets each prefix of it.
pub proof fn lemma_passes_prefix(w: Seq<char>, cs: Seq<Constraint>, k: int)
    requires
        0 <= k <= cs.len(),
        passes_all(w, cs),
    ensures
        passes_all(w, cs.take(k)),
    decreases cs.len(),
{
    if k < cs.len() {
        lemma_passes_prefix(w, cs.drop_last(), k);
        assert(cs.drop_last().take(k) =~= cs.take(k));
    } else {
        assert(cs.take(k) =~= cs);
    }
}

/// Whether `word` meets a single constraint.
pub fn passes_constraint(word: &Word, constraint: &Constraint) -> (r: bool)
    requires
        well_formed(*constraint),
    ensures
        r == passes(word@, *constraint),
{
    proof {
        word.lemma_len();
    }
    match constraint {
        Constraint::Green(c, i) => word.letters[*i] == *c,
        Constraint::Yellow(c, i) => {
            let j = find_letter(&word.letters, *c);
            proof {
                lemma_first_position(word@, *c);
            }
            j < WORD_LENGTH && word.letters[*i] != *c
        },
        Constraint::Gray(c) => {
            let j = find_letter(&word.letters, *c);
            proof {
                lemma_first_position(word@, *c);
            }
            j >= WORD_LENGTH
        },
    }
}

/// Whether `word` meets every constraint, in order, with each matched letter
/// accounted for before the next constraint is checked.
pub fn passes_constraints(word: &Word, constraints: &[Constraint]) -> (r: bool)
    requires
        all_well_formed(constraints@),
    ensures
        r == passes_all(word@, constraints@),
{
    let mut characters: Word = *word;
    let mut i: usize = 0;
    while i < constraints.len()
        invariant
            i <= constraints@.len(),
            all_well_formed(constraints@),
            characters@ == consumed(word@, constraints@.take(i as int)),
            passes_all(word@, constraints@.take(i as int)),
        decreases constraints@.len() - i,
    {
        let constraint = constraints[i];
        assert(constraints@.take(i + 1).drop_last() =~= constraints@.take(i as int));
        assert(well_formed(constraints@[i as int]));
        if !passes_constraint(&characters, &constraint) {
            proof {
                if passes_all(word@, constraints@) {
                    lemma_passes_prefix(word@, constraints@, i + 1);
                }
            }
            return false;
        }
        proof {
            characters.lemma_len();
            lemma_first_position(characters@, match constraint {
                Constraint::Yellow(c, _) => c,
                _ => BLANK,
            });
        }
        match constraint {
            Constraint::Green(_, k) => {
                characters.letters[k] = BLANK;
            },
            Constraint::Yellow(c, _) => {
                let j = find_letter(&characters.letters, c);
                characters.letters[j] = BLANK;
            },
            Constraint::Gray(_) => {},
        }
        i = i + 1;
        assert(characters@ =~= consumed(word@, constraints@.take(i as int)));
    }
    assert(constraints@.take(i as int) =~= constraints@);
    true
}

/// Fills `buffer` with the words of `words` that meet every constraint, in
/// their order.
pub fn filter_word_list(words: &[Word], constraints: &[Constraint], buffer: &mut Vec<Word>)
    requires
        all_well_formed(constraints@),
    ensures
        final(buffer)@ == filter_pool(words@, constraints@),
{
    buffer.clear();
    let mut i: usize = 0;
    while i < words.len()
        invariant
            i <= words@.len(),
            all_well_formed(constraints@),
            buffer@ == filter_pool(words@.take(i as int), constraints@),
        decreases words@.len() - i,
    {
        assert(words@.take(i + 1).drop_last() =~= words@.take(i as int));
        if passes_constraints(&words[i], constraints) {
            buffer.push(words[i]);
        }
        i = i + 1;
    }
    assert(words@.take(i as int) =~= words@);
}

/// Filtering by a longer sequence of constraints never keeps more words than
/// filtering by a prefix of it.
pub proof fn lemma_filter_monotone(pool: Seq<Word>, c1: Seq<Constraint>, c2: Seq<Constraint>)
    requires
        c1.len() <= c2.len(),
        c2.take(c1.len() as int) == c1,
    ensures
        filter_pool(pool, c2).len() <= filter_pool(pool, c1).len(),
    decreases pool.len(),
{
    if pool.len() > 0 {
        lemma_filter_monotone(pool.drop_last(), c1, c2);
        if passes_all(pool.last()@, c2) {
            lemma_passes_prefix(pool.last()@, c2, c1.len() as int);
        }
    }
}

} // verus!
