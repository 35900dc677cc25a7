//! Scoring of opening guesses for a five-letter word-guessing game: word
//! codec, feedback derivation with duplicate-letter rules, candidate
//! filtering, and the decision step of the recursive scorer.
pub mod constraint;
pub mod filter;
pub mod score;
pub mod soundness;
pub mod word;
