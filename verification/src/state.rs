use crate::token::TokenKind;
use vstd::prelude::*;

verus! {

/// The class of the run that the machine is in, with `Start` before the
/// first character and `End` once the input is exhausted.
#[derive(Debug, Clone, Copy, PartialEq, Eq, Structural)]
pub enum State {
    Start,
    End,
    Number,
    Identifier,
    Operator,
    Delimiter,
    Whitespace,
}

/// The class of a character, `None` for one outside the alphabet. No
/// character has the class `Start` or `End`.
pub open spec fn class_of(c: char) -> Option<State> {
    if '0' <= c <= '9' {
        Some(State::Number)
    } else if 'a' <= c <= 'z' || 'A' <= c <= 'Z' {
        Some(State::Identifier)
    } else if c == '+' || c == '-' || c == '*' || c == '/' {
        Some(State::Operator)
    } else if c == '=' || c == ';' {
        Some(State::Delimiter)
    } else if c == ' ' || c == '\t' || c == '\n' {
        Some(State::Whitespace)
    } else {
        None
    }
}

/// Whether `c` is a space, a tab or a newline.
pub open spec fn is_whitespace(c: char) -> bool {
    class_of(c) == Some(State::Whitespace)
}

/// Whether a run of this class becomes a token.
pub open spec fn is_token_class(state: State) -> bool {
    state == State::Number || state == State::Identifier || state == State::Operator || state
        == State::Delimiter
}

/// The kind of the token that a run of class `state` becomes.
pub open spec fn kind_of(state: State) -> TokenKind
    recommends
        is_token_class(state),
{
    match state {
        State::Number => TokenKind::Number,
        State::Identifier => TokenKind::Identifier,
        State::Operator => TokenKind::Operator,
        _ => TokenKind::Delimiter,
    }
}

/// The kind of the token that holds `c`, for a character that belongs to
/// a token.
pub open spec fn char_kind(c: char) -> TokenKind
    recommends
        class_of(c) is Some,
        !is_whitespace(c),
{
    match class_of(c) {
        Some(state) => kind_of(state),
        None => TokenKind::Delimiter,
    }
}

/// Classifies one character.
pub fn classify(c: char) -> (class: Option<State>)
    ensures
        class == class_of(c),
{
    if '0' <= c && c <= '9' {
        Some(State::Number)
    } else if ('a' <= c && c <= 'z') || ('A' <= c && c <= 'Z') {
        Some(State::Identifier)
    } else if c == '+' || c == '-' || c == '*' || c == '/' {
        Some(State::Operator)
    } else if c == '=' || c == ';' {
        Some(State::Delimiter)
    } else if c == ' ' || c == '\t' || c == '\n' {
        Some(State::Whitespace)
    } else {
        None
    }
}

/// The kind of the token that a run of class `state` becomes.
pub fn token_kind(state: State) -> (kind: TokenKind)
    requires
        is_token_class(state),
    ensures
        kind == kind_of(state),
{
    match state {
        State::Number => TokenKind::Number,
        State::Identifier => TokenKind::Identifier,
        State::Operator => TokenKind::Operator,
        _ => TokenKind::Delimiter,
    }
}

} // verus!
