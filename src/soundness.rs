use vstd::prelude::*;
use crate::constraint::{
    emits_gray, feedback, first_position, gray_pass, gray_step, green_pass, yellow_pass, Constraint,
};
use crate::filter::{consumed, filter_pool, lemma_first_position, passes, passes_all};
use crate::word::{Word, BLANK, WORD_LENGTH};

verus! {

/// Appending one constraint: the word must also meet it on what is left.
proof fn lemma_push(w: Seq<char>, cs: Seq<Constraint>, c: Constraint)
    ensures
        passes_all(w, cs.push(c)) == (passes_all(w, cs) && passes(consumed(w, cs), c)),
        consumed(w, cs.push(c)) == crate::filter::consume(consumed(w, cs), c),
{
    assert(cs.push(c).drop_last() =~= cs);
}

/// The exact-match pass blanks exactly the matching positions, and the
/// answer meets the greens it emits.
proof fn lemma_green(a: Seq<char>, g: Seq<char>, n: int)
    requires
        a.len() == WORD_LENGTH,
        g.len() == WORD_LENGTH,
        0 <= n <= WORD_LENGTH,
    ensures
        ({
            let d = green_pass(a, g, n);
            &&& d.0.len() == WORD_LENGTH
            &&& d.1.len() == WORD_LENGTH
            &&& forall|k: int| n <= k < WORD_LENGTH ==> d.0[k] == a[k] && d.1[k] == g[k]
            &&& forall|k: int|
                0 <= k < n ==> if a[k] == g[k] {
                    d.0[k] == BLANK && d.1[k] == BLANK
                } else {
                    d.0[k] == a[k] && d.1[k] == g[k]
                }
            &&& passes_all(a, d.2)
            &&& consumed(a, d.2) == d.0
        }),
    decreases n,
{
    if n > 0 {
        lemma_green(a, g, n - 1);
        let d = green_pass(a, g, n - 1);
        let i = n - 1;
        if d.0[i] == d.1[i] {
            lemma_push(a, d.2, Constraint::Green(d.1[i], i as usize));
        }
    }
}

/// The displaced-match pass only blanks letters of the answer, leaves no
/// unmatched guess letter that the answer still holds, and the answer meets
/// the yellows it emits.
proof fn lemma_yellow(a: Seq<char>, g: Seq<char>, n: int)
    requires
        a.len() == WORD_LENGTH,
        g.len() == WORD_LENGTH,
        0 <= n <= WORD_LENGTH,
    ensures
        ({
            let s = green_pass(a, g, WORD_LENGTH as int);
            let d = yellow_pass(s, n);
            &&& d.0.len() == WORD_LENGTH
            &&& d.1.len() == WORD_LENGTH
            &&& forall|k: int| n <= k < WORD_LENGTH ==> d.1[k] == s.1[k]
            &&& forall|k: int| 0 <= k < WORD_LENGTH ==> d.0[k] == s.0[k] || d.0[k] == BLANK
            &&& forall|k: int| 0 <= k < n && d.1[k] != BLANK ==> !d.0.contains(d.1[k])
            &&& passes_all(a, d.2)
            &&& consumed(a, d.2) == d.0
        }),
    decreases n,
{
    let s = green_pass(a, g, WORD_LENGTH as int);
    lemma_green(a, g, WORD_LENGTH as int);
    if n > 0 {
        lemma_yellow(a, g, n - 1);
        let d = yellow_pass(s, n - 1);
        let i = n - 1;
        let c = d.1[i];
        let j = first_position(d.0, c);
        lemma_first_position(d.0, c);
        assert(c == s.1[i]);
        if c != BLANK && j < d.0.len() {
            assert(a[i] != g[i]);
            assert(s.0[i] != c);
            assert(d.0[i] != c);
            lemma_push(a, d.2, Constraint::Yellow(c, i as usize));
            let na = d.0.update(j, BLANK);
            let ng = d.1.update(i, BLANK);
            assert forall|k: int| 0 <= k < n && ng[k] != BLANK implies !na.contains(ng[k]) by {
                if na.contains(ng[k]) {
                    let m = choose|m: int| 0 <= m < na.len() && na[m] == ng[k];
                    assert(d.0[m] == ng[k]);
                }
            }
        }
    }
}

/// One step of the absence pass keeps the answer passing when the letter it
/// looks at is blank or no longer held by what is left of the answer.
proof fn lemma_gray_step(a: Seq<char>, o: Seq<Constraint>, w: Seq<char>, c: char)
    requires
        passes_all(a, o),
        consumed(a, o) == w,
        c != BLANK ==> !w.contains(c),
    ensures
        passes_all(a, gray_step(o, c)),
        consumed(a, gray_step(o, c)) == w,
{
    reveal(emits_gray);
    lemma_push(a, o, Constraint::Gray(c));
}

/// Grays for letters that `w`, what is left of the word, no longer holds are
/// met, and leave `w` unchanged.
proof fn lemma_gray(a: Seq<char>, left: Seq<char>, base: Seq<Constraint>, w: Seq<char>, n: int)
    requires
        0 <= n <= left.len(),
        passes_all(a, base),
        consumed(a, base) == w,
        forall|k: int| 0 <= k < n && left[k] != BLANK ==> !w.contains(left[k]),
    ensures
        passes_all(a, gray_pass(left, base, n)),
        consumed(a, gray_pass(left, base, n)) == w,
    decreases n,
{
    if n > 0 {
        lemma_gray(a, left, base, w, n - 1);
        let o = gray_pass(left, base, n - 1);
        let c = left[n - 1];
        assert(c != BLANK ==> !w.contains(c));
        lemma_gray_step(a, o, w, c);
        assert(gray_pass(left, base, n) == gray_step(o, c));
    }
}

/// The answer meets the feedback that any guess receives against it.
pub proof fn lemma_derivation_sound(answer: Seq<char>, guess: Seq<char>)
    requires
        answer.len() == WORD_LENGTH,
        guess.len() == WORD_LENGTH,
    ensures
        passes_all(answer, feedback(answer, guess)),
{
    lemma_yellow(answer, guess, WORD_LENGTH as int);
    let y = yellow_pass(green_pass(answer, guess, WORD_LENGTH as int), WORD_LENGTH as int);
    lemma_gray(answer, y.1, y.2, y.0, WORD_LENGTH as int);
}


/// A pool that holds the answer still holds it after filtering by the
/// feedback of any guess: the answer stays a candidate for the next attempt.
pub proof fn lemma_answer_stays_candidate(answer: Word, guess: Seq<char>, words: Seq<Word>)
    requires
        guess.len() == WORD_LENGTH,
        words.contains(answer),
    ensures
        filter_pool(words, feedback(answer@, guess)).contains(answer),
    decreases words.len(),
{
    let cs = feedback(answer@, guess);
    answer.lemma_len();
    lemma_derivation_sound(answer@, guess);
    let rest = filter_pool(words.drop_last(), cs);
    if words.last() == answer {
        assert(filter_pool(words, cs) == rest.push(answer));
        assert(rest.push(answer)[rest.len() as int] == answer);
    } else {
        let j = choose|j: int| 0 <= j < words.len() && words[j] == answer;
        assert(words.drop_last()[j] == answer);
        lemma_answer_stays_candidate(answer, guess, words.drop_last());
        let m = choose|m: int| 0 <= m < rest.len() && rest[m] == answer;
        if passes_all(words.last()@, cs) {
            assert(rest.push(words.last())[m] == answer);
        }
    }
}

} // verus!
