use vstd::prelude::*;

verus! {

/// The classification of a token.
#[derive(Debug, Clone, Copy, PartialEq, Eq, Structural)]
pub enum TokenKind {
    Number,
    Identifier,
    Operator,
    Delimiter,
}

/// A classified run of the input.
#[derive(Debug, Clone, PartialEq, Eq)]
pub struct Token {
    pub kind: TokenKind,
    pub value: String,
}

/// What a token is in contracts: its kind and its characters.
pub struct TokenView {
    pub kind: TokenKind,
    pub value: Seq<char>,
}

impl View for Token {
    type V = TokenView;

    open spec fn view(&self) -> TokenView {
        TokenView { kind: self.kind, value: self.value@ }
    }
}

/// The views of a sequence of tokens, in order.
pub open spec fn token_views(tokens: Seq<Token>) -> Seq<TokenView> {
    Seq::new(tokens.len(), |i: int| tokens[i]@)
}

/// Why an input has no tokens.
#[derive(Debug, Clone, Copy, PartialEq, Eq, Structural)]
pub enum LexError {
    /// A character outside the alphabet, and its index in the input.
    UnrecognizedCharacter(char, usize),
}

} // verus!
