use vstd::prelude::*;
use crate::constraint::{feedback, get_constraints, Constraint};
use crate::filter::{filter_pool, filter_word_list};
use crate::word::{Word, WORD_LENGTH};

verus! {

/// The number of guesses a game allows.
pub const GUESS_LIMIT: usize = 6;

/// What the scorer does with a guess at a given attempt.
#[derive(Clone, Copy, Debug, PartialEq, Eq, Structural)]
pub enum Step {
    /// The guess is the answer: solved at this attempt.
    Solved(usize),
    /// The guess budget is spent without solving.
    Exhausted,
    /// Every candidate left is tried as the next guess, at the next attempt.
    Branch,
}

/// The decision the scorer makes for `guess` against `answer` at `attempt`.
pub open spec fn step_of(answer: Seq<char>, guess: Seq<char>, attempt: nat) -> Step {
    if answer == guess {
        Step::Solved(attempt as usize)
    } else if attempt >= GUESS_LIMIT {
        Step::Exhausted
    } else {
        Step::Branch
    }
}

/// Whether two words have the same letters in the same places.
pub fn same_word(a: &Word, b: &Word) -> (r: bool)
    ensures
        r == (a@ == b@),
{
    let mut i: usize = 0;
    while i < WORD_LENGTH
        invariant
            i <= WORD_LENGTH,
            a@.len() == WORD_LENGTH,
            b@.len() == WORD_LENGTH,
            forall|k: int| 0 <= k < i ==> a@[k] == b@[k],
        decreases WORD_LENGTH - i,
    {
        if a.letters[i] != b.letters[i] {
            return false;
        }
        i = i + 1;
    }
    assert(a@ =~= b@);
    true
}

/// Decides what the scorer does with `guess` against `answer` at attempt
/// number `attempt`. When it branches, `constraints` receives the feedback
/// and `next_words` the words of `words` that are still consistent with it:
/// the candidates for the next attempt.
pub fn score_step(
    answer: &Word,
    guess: &Word,
    words: &[Word],
    attempt: usize,
    constraints: &mut Vec<Constraint>,
    next_words: &mut Vec<Word>,
) -> (r: Step)
    ensures
        r == step_of(answer@, guess@, attempt as nat),
        r == Step::Branch ==> final(constraints)@ == feedback(answer@, guess@) && final(next_words)@
            == filter_pool(words@, feedback(answer@, guess@)),
        r != Step::Branch ==> final(constraints)@ == old(constraints)@ && final(next_words)@
            == old(next_words)@,
{
    if same_word(answer, guess) {
        return Step::Solved(attempt);
    }
    if attempt >= GUESS_LIMIT {
        return Step::Exhausted;
    }
    get_constraints(answer, guess, constraints);
    filter_word_list(words, constraints.as_slice(), next_words);
    Step::Branch
}

/// The arithmetic of scores: how a solved or failed game is scored, and how
/// the scores of the branches of one attempt combine. Each operation is
/// described by a spec function, which the recursive scorer is stated over;
/// an implementation that Verus checks defines them, and the defaults leave
/// them unspecified.
pub trait Tally: Sized {
    /// The score of a game solved at attempt number `attempt`.
    closed spec fn solved_spec(attempt: nat) -> Self {
        arbitrary()
    }

    /// The score of a game not solved within the guess budget.
    closed spec fn unsolved_spec() -> Self {
        arbitrary()
    }

    /// An empty running sum of branch scores.
    closed spec fn zero_spec() -> Self {
        arbitrary()
    }

    /// A running sum with one more branch score added.
    closed spec fn accumulate_spec(sum: Self, branch: Self) -> Self {
        arbitrary()
    }

    /// The score that a running sum over `count` branches stands for.
    closed spec fn finish_spec(sum: Self, count: nat) -> Self {
        arbitrary()
    }

    fn solved(attempt: usize) -> (r: Self)
        ensures
            r == Self::solved_spec(attempt as nat),
    ;

    fn unsolved() -> (r: Self)
        ensures
            r == Self::unsolved_spec(),
    ;

    fn zero() -> (r: Self)
        ensures
            r == Self::zero_spec(),
    ;

    fn accumulate(&mut self, branch: &Self)
        ensures
            *final(self) == Self::accumulate_spec(*old(self), *branch),
    ;

    fn finish(&self, count: usize) -> (r: Self)
        ensures
            r == Self::finish_spec(*self, count as nat),
    ;
}

/// The score of `guess` against `answer` at attempt number `attempt`, with
/// `words` the candidates still open: a solved guess and a spent budget score
/// directly; otherwise the scores of every candidate left by the feedback,
/// tried as the next guess among those candidates, are summed and finished
/// over their number.
pub open spec fn score_of<T: Tally>(answer: Seq<char>, guess: Seq<char>, words: Seq<Word>, attempt: nat) -> T
    decreases GUESS_LIMIT - attempt, 1int, 0int,
{
    if answer == guess {
        T::solved_spec(attempt)
    } else if attempt >= GUESS_LIMIT {
        T::unsolved_spec()
    } else {
        let next = filter_pool(words, feedback(answer, guess));
        T::finish_spec(branch_sum::<T>(answer, next, attempt, next.len() as int), next.len())
    }
}

/// The running sum of the scores of the first `k` candidates of `next`, each
/// tried as the guess at the attempt after `attempt`.
pub open spec fn branch_sum<T: Tally>(answer: Seq<char>, next: Seq<Word>, attempt: nat, k: int) -> T
    decreases GUESS_LIMIT - attempt, 0int, k,
{
    if k <= 0 || attempt >= GUESS_LIMIT {
        T::zero_spec()
    } else {
        T::accumulate_spec(
            branch_sum::<T>(answer, next, attempt, k - 1),
            score_of::<T>(answer, next[k - 1]@, next, attempt + 1),
        )
    }
}

/// The running sum of the game scores of `guess` against the first `k`
/// answers of `answers`, each game started at the first attempt.
pub open spec fn game_sum<T: Tally>(guess: Seq<char>, answers: Seq<Word>, guesses: Seq<Word>, k: int) -> T
    decreases k,
{
    if k <= 0 {
        T::zero_spec()
    } else {
        T::accumulate_spec(
            game_sum::<T>(guess, answers, guesses, k - 1),
            score_of::<T>(answers[k - 1]@, guess, guesses, 1),
        )
    }
}

/// Reusable buffers for one level of the recursive search.
pub struct Scratch {
    pub constraints: Vec<Constraint>,
    pub words: Vec<Word>,
}

impl Scratch {
    /// Empty buffers.
    pub fn new() -> (r: Scratch)
        ensures
            r.constraints@.len() == 0,
            r.words@.len() == 0,
    {
        Scratch { constraints: Vec::new(), words: Vec::new() }
    }
}

/// Scores `guess` against `answer` at attempt number `attempt`, with `words`
/// the candidates still open. A solved guess and a spent budget are scored by
/// `T`; otherwise every candidate consistent with the feedback is tried as the
/// next guess, and the branch scores are combined by `T`. The levels of
/// `scratch` are taken one per depth and given back, so that a search makes
/// no allocation once there is one level per remaining attempt.
pub fn get_score<T: Tally>(
    answer: &Word,
    guess: &Word,
    words: &[Word],
    attempt: usize,
    scratch: &mut Vec<Scratch>,
) -> (r: T)
    ensures
        r == score_of::<T>(answer@, guess@, words@, attempt as nat),
        final(scratch)@.len() >= old(scratch)@.len(),
    decreases GUESS_LIMIT - attempt,
{
    let had = scratch.len();
    let mut level = match scratch.pop() {
        Some(s) => s,
        None => Scratch::new(),
    };
    let step = score_step(answer, guess, words, attempt, &mut level.constraints, &mut level.words);
    let r = match step {
        Step::Solved(n) => T::solved(n),
        Step::Exhausted => T::unsolved(),
        Step::Branch => {
            let mut sum = T::zero();
            let mut i: usize = 0;
            while i < level.words.len()
                invariant
                    attempt < GUESS_LIMIT,
                    answer@ != guess@,
                    i <= level.words@.len(),
                    level.words@ == filter_pool(words@, feedback(answer@, guess@)),
                    sum == branch_sum::<T>(answer@, level.words@, attempt as nat, i as int),
                    scratch@.len() + 1 >= had,
                decreases level.words@.len() - i,
            {
                let next = level.words[i];
                let branch: T = get_score(answer, &next, level.words.as_slice(), attempt + 1, scratch);
                sum.accumulate(&branch);
                i = i + 1;
            }
            sum.finish(level.words.len())
        },
    };
    scratch.push(level);
    r
}

/// Scores `guess` as an opening guess: played against every answer of
/// `answers` with `guesses` as the candidates, the game scores combined by
/// `T` over the number of answers.
pub fn score_word<T: Tally>(
    guess: &Word,
    answers: &[Word],
    guesses: &[Word],
    scratch: &mut Vec<Scratch>,
) -> (r: T)
    ensures
        r == T::finish_spec(
            game_sum::<T>(guess@, answers@, guesses@, answers@.len() as int),
            answers@.len() as nat,
        ),
        final(scratch)@.len() >= old(scratch)@.len(),
{
    let mut sum = T::zero();
    let mut i: usize = 0;
    while i < answers.len()
        invariant
            i <= answers@.len(),
            sum == game_sum::<T>(guess@, answers@, guesses@, i as int),
            scratch@.len() >= old(scratch)@.len(),
        decreases answers@.len() - i,
    {
        let game: T = get_score(&answers[i], guess, guesses, 1, scratch);
        sum.accumulate(&game);
        i = i + 1;
    }
    sum.finish(answers.len())
}

/// Guessing the answer itself is solved at the attempt it is made, whatever
/// the pool and the attempt number.
pub proof fn lemma_immediate_solve(w: Seq<char>, attempt: nat)
    requires
        attempt <= usize::MAX,
    ensures
        step_of(w, w, attempt) == Step::Solved(attempt as usize),
{
}

/// A wrong guess at the last allowed attempt ends the game unsolved.
pub proof fn lemma_budget_exhausted(answer: Seq<char>, guess: Seq<char>)
    requires
        answer != guess,
    ensures
        step_of(answer, guess, GUESS_LIMIT as nat) == Step::Exhausted,
{
}

/// The three word pools of a run.
pub struct Pools {
    /// The hidden answers that play is simulated against.
    pub answers: Vec<Word>,
    /// The words allowed as guesses.
    pub guesses: Vec<Word>,
    /// The words that receive a score.
    pub search: Vec<Word>,
}

/// Copies a list of words.
fn copy_words(words: &Vec<Word>) -> (r: Vec<Word>)
    ensures
        r@ == words@,
{
    let mut r: Vec<Word> = Vec::new();
    let mut i: usize = 0;
    while i < words.len()
        invariant
            i <= words@.len(),
            r@ == words@.take(i as int),
        decreases words@.len() - i,
    {
        r.push(words[i]);
        i = i + 1;
        assert(r@ =~= words@.take(i as int));
    }
    assert(words@.take(i as int) =~= words@);
    r
}

/// Puts together the pools of a run. The guess pool defaults to the answer
/// pool and the search pool to the guess pool. Extra words join the guess
/// pool; they join an explicitly given search pool too, and otherwise they
/// replace the default search pool.
pub fn assemble_pools(
    answers: Vec<Word>,
    guesses: Option<Vec<Word>>,
    search: Option<Vec<Word>>,
    extra: Vec<Word>,
) -> (r: Pools)
    ensures
        r.answers@ == answers@,
        ({
            let g = match guesses {
                Some(v) => v@,
                None => answers@,
            };
            &&& r.guesses@ == g + extra@
            &&& r.search@ == match search {
                Some(v) => v@ + extra@,
                None => if extra@.len() == 0 {
                    g
                } else {
                    extra@
                },
            }
        }),
{
    let mut guess_words = match guesses {
        Some(v) => v,
        None => copy_words(&answers),
    };
    let explicit = search.is_some();
    let mut search_words = match search {
        Some(v) => v,
        None => copy_words(&guess_words),
    };
    if extra.len() > 0 {
        let mut more = copy_words(&extra);
        guess_words.append(&mut more);
        if explicit {
            let mut more = copy_words(&extra);
            search_words.append(&mut more);
        } else {
            search_words = extra;
        }
    } else {
        assert(guess_words@ + extra@ =~= guess_words@);
        assert(search_words@ + extra@ =~= search_words@);
    }
    Pools { answers, guesses: guess_words, search: search_words }
}

} // verus!
