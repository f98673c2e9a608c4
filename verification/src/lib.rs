//! A verified engine for a five-letter word-guessing game.
//!
//! The library scores a guess against a hidden answer under duplicate-letter
//! semantics, folds per-guess letter feedback into a persistent alphabet
//! state, checks hard-mode constraints, filters hint-mode candidate pools,
//! and drives a round of up to six guesses to a terminal outcome.  All of it
//! is specified and proved; input/output and configuration plumbing live
//! outside the library and hand it plain, already-validated values.

pub mod arguments;
pub mod compare;
pub mod config;
pub mod progress;
pub mod round;
pub mod stats;
pub mod status;
pub mod validity;
pub mod wordlist;
pub mod words;
