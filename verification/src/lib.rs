//! Core of a terminal word-guessing game: a player submits five-letter
//! guesses against a hidden secret word and receives per-letter feedback
//! (correct position, present but misplaced, absent) together with an
//! aggregated per-letter hint over the whole round.
//!
//! The feedback algorithm (position-aware multiset matching with
//! diacritic-insensitive equivalence and monotonic hint aggregation) lives in
//! `feedback`; character equivalence in `ascii`. The surrounding pieces
//! (argument handling, dictionaries, language tables) supply the engine with
//! plain values and consume plain values back; all terminal input and output
//! stays outside this crate.

pub mod abecedary;
pub mod args;
pub mod ascii;
pub mod dictionary;
pub mod feedback;
pub mod game;
pub mod language;
pub mod letter;
pub mod prompt;
pub mod settings;
pub mod text;
