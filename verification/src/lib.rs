//! A single-pass lexer: a character sequence goes in, the classified runs
//! of it (numbers, identifiers, operators, delimiters) come out, whitespace
//! skipped.
//!
//! `state` classifies characters, `model` says what the tokens of an input
//! are, `machine` is the state machine that computes them, and `laws` holds
//! what is proved of the model.

pub mod laws;
pub mod machine;
pub mod model;
pub mod state;
pub mod token;
