use wordscore::constraint::Constraint;
use wordscore::score::{assemble_pools, get_score, same_word, score_step, score_word, Scratch, Step, Tally, GUESS_LIMIT};
use wordscore::word::Word;

fn word(s: &str) -> Word {
    Word::from_str(s).unwrap()
}

fn words(list: &[&str]) -> Vec<Word> {
    list.iter().map(|s| word(s)).collect()
}

/// Expected guesses and success rate, or their running sums.
#[derive(Clone, Copy, Debug, PartialEq)]
struct Score {
    guesses: f32,
    success: f32,
}

impl Tally for Score {
    fn solved(attempt: usize) -> Self {
        Score { guesses: attempt as f32, success: 1.0 }
    }

    fn unsolved() -> Self {
        Score { guesses: 0.0, success: 0.0 }
    }

    fn zero() -> Self {
        Score { guesses: 0.0, success: 0.0 }
    }

    fn accumulate(&mut self, branch: &Self) {
        self.guesses += branch.guesses * branch.success;
        self.success += branch.success;
    }

    fn finish(&self, count: usize) -> Self {
        if self.success > 0.0 {
            Score { guesses: self.guesses / self.success, success: self.success / count as f32 }
        } else {
            Score { guesses: 0.0, success: 0.0 }
        }
    }
}

fn score(answer: &str, guess: &str, pool: &[&str], attempt: usize) -> Score {
    let mut scratch = Vec::new();
    get_score(&word(answer), &word(guess), &words(pool), attempt, &mut scratch)
}

#[test]
fn same_word_compares_letters() {
    assert!(same_word(&word("CRANE"), &word("CRANE")));
    assert!(!same_word(&word("CRANE"), &word("CRANK")));
}

#[test]
fn step_solved_at_current_attempt() {
    let mut cs = vec![Constraint::Gray('Q')];
    let mut next = vec![word("QQQQQ")];
    let pool = words(&["CRANE", "CRATE"]);
    for attempt in [1, 3, 6, 9] {
        let r = score_step(&word("CRANE"), &word("CRANE"), &pool, attempt, &mut cs, &mut next);
        assert_eq!(r, Step::Solved(attempt));
    }
    assert_eq!(cs, vec![Constraint::Gray('Q')]);
    assert_eq!(next, vec![word("QQQQQ")]);
}

#[test]
fn step_exhausted_at_budget() {
    let mut cs = Vec::new();
    let mut next = Vec::new();
    let pool = words(&["CRANE", "CRATE"]);
    let r = score_step(&word("CRANE"), &word("CRATE"), &pool, GUESS_LIMIT, &mut cs, &mut next);
    assert_eq!(r, Step::Exhausted);
    assert!(cs.is_empty() && next.is_empty());
}

#[test]
fn step_branches_to_consistent_candidates() {
    let mut cs = Vec::new();
    let mut next = Vec::new();
    let pool = words(&["CRANE", "CRATE"]);
    let r = score_step(&word("CRANE"), &word("CRATE"), &pool, 1, &mut cs, &mut next);
    assert_eq!(r, Step::Branch);
    assert_eq!(cs.len(), 5);
    assert_eq!(next, vec![word("CRANE")]);
}

#[test]
fn immediate_solve_scores_attempt() {
    for n in 1..=GUESS_LIMIT {
        assert_eq!(score("ALLOY", "ALLOY", &["ALLOY", "LOLLY"], n), Score { guesses: n as f32, success: 1.0 });
    }
}

#[test]
fn budget_exhaustion_scores_zero() {
    assert_eq!(score("ALLOY", "LOLLY", &["ALLOY", "LOLLY"], 6), Score { guesses: 0.0, success: 0.0 });
}

#[test]
fn empty_branch_scores_zero() {
    assert_eq!(score("CRANE", "CRATE", &["SLATE"], 1), Score { guesses: 0.0, success: 0.0 });
}

#[test]
fn end_to_end_crate() {
    let pool = words(&["CRANE", "CRATE"]);
    assert_eq!(score("CRANE", "CRATE", &["CRANE", "CRATE"], 1), Score { guesses: 2.0, success: 1.0 });
    assert_eq!(score("CRATE", "CRATE", &["CRANE", "CRATE"], 1), Score { guesses: 1.0, success: 1.0 });
    let mut scratch = Vec::new();
    let r: Score = score_word(&word("CRATE"), &pool, &pool, &mut scratch);
    assert_eq!(r, Score { guesses: 1.5, success: 1.0 });
}

#[test]
fn success_rate_counts_all_candidates() {
    // Against SLATE, CRATE leaves SLATE and PLATE. Guessing PLATE next costs
    // one more guess, which the budget no longer allows from attempt five on.
    let r = score("SLATE", "CRATE", &["SLATE", "PLATE"], 4);
    assert_eq!(r, Score { guesses: 5.5, success: 1.0 });
    let r = score("SLATE", "CRATE", &["SLATE", "PLATE"], 5);
    assert_eq!(r, Score { guesses: 6.0, success: 0.5 });
}

#[test]
fn results_do_not_depend_on_order_or_scratch() {
    let pool = words(&["CRANE", "CRATE", "TRACE", "SLATE", "REACT"]);
    let mut shared = Vec::new();
    let forward: Vec<Score> = pool.iter().map(|w| score_word(w, &pool, &pool, &mut shared)).collect();
    let mut backward: Vec<Score> = pool
        .iter()
        .rev()
        .map(|w| {
            let mut fresh: Vec<Scratch> = (0..GUESS_LIMIT).map(|_| Scratch::new()).collect();
            score_word(w, &pool, &pool, &mut fresh)
        })
        .collect();
    backward.reverse();
    assert_eq!(forward, backward);
}

#[test]
fn pools_default_to_answers() {
    let p = assemble_pools(words(&["CRANE", "CRATE"]), None, None, Vec::new());
    assert_eq!(p.answers, words(&["CRANE", "CRATE"]));
    assert_eq!(p.guesses, words(&["CRANE", "CRATE"]));
    assert_eq!(p.search, words(&["CRANE", "CRATE"]));
}

#[test]
fn search_defaults_to_guesses() {
    let p = assemble_pools(words(&["CRANE"]), Some(words(&["SLATE", "TRACE"])), None, Vec::new());
    assert_eq!(p.guesses, words(&["SLATE", "TRACE"]));
    assert_eq!(p.search, words(&["SLATE", "TRACE"]));
}

#[test]
fn extra_words_replace_default_search() {
    let p = assemble_pools(words(&["CRANE"]), None, None, words(&["ALLOY"]));
    assert_eq!(p.guesses, words(&["CRANE", "ALLOY"]));
    assert_eq!(p.search, words(&["ALLOY"]));
}

#[test]
fn extra_words_join_given_search() {
    let p = assemble_pools(words(&["CRANE"]), None, Some(words(&["SLATE"])), words(&["ALLOY"]));
    assert_eq!(p.guesses, words(&["CRANE", "ALLOY"]));
    assert_eq!(p.search, words(&["SLATE", "ALLOY"]));
}

#[test]
fn success_rate_divides_by_raw_count() {
    let pool = ["ABCDE", "KLMNO", "FGHIJ"];
    assert_eq!(score("ABCDE", "FGHIJ", &pool, 5), Score { guesses: 6.0, success: 0.5 });
}

#[test]
fn guesses_are_success_weighted() {
    let pool = ["ABCDE", "KLMNO", "FGHIJ"];
    assert_eq!(score("ABCDE", "FGHIJ", &pool, 4), Score { guesses: 5.5, success: 1.0 });
}

#[test]
fn pool_with_answer_is_never_sentinel() {
    let pool = ["CRANE", "CRATE", "TRACE", "SLATE"];
    for a in pool {
        for g in pool {
            for n in 1..GUESS_LIMIT {
                assert!(score(a, g, &pool, n).success > 0.0, "{} {} {}", a, g, n);
            }
        }
    }
}
