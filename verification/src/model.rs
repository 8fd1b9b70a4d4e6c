use crate::state::{char_kind, class_of, is_whitespace};
use crate::token::TokenView;
use vstd::prelude::*;

verus! {

/// Every character of `s` belongs to the alphabet.
pub open spec fn recognized(s: Seq<char>) -> bool {
    forall|i: int| 0 <= i < s.len() ==> (#[trigger] class_of(s[i])) is Some
}

/// The tokens of `s`: its maximal runs of characters of one class, from
/// left to right, the whitespace runs left out.
///
/// A character that is not whitespace joins the token before it where the
/// character before it has its class, and starts a token of its own
/// otherwise.
pub open spec fn tokens_of(s: Seq<char>) -> Seq<TokenView>
    decreases s.len(),
{
    if s.len() == 0 {
        Seq::empty()
    } else {
        let c = s.last();
        let before = tokens_of(s.drop_last());
        if is_whitespace(c) {
            before
        } else if s.len() >= 2 && class_of(s[s.len() - 2]) == class_of(c) {
            before.drop_last().push(
                TokenView { kind: before.last().kind, value: before.last().value.push(c) },
            )
        } else {
            before.push(TokenView { kind: char_kind(c), value: seq![c] })
        }
    }
}

/// A token as the lexer emits them: not empty, free of whitespace, all its
/// characters of one class, and of the kind of that class.
pub open spec fn is_run(token: TokenView) -> bool {
    &&& token.value.len() > 0
    &&& token.kind == char_kind(token.value[0])
    &&& !is_whitespace(token.value[0])
    &&& forall|j: int|
        0 <= j < token.value.len() ==> class_of(#[trigger] token.value[j]) == class_of(
            token.value[0],
        )
}

/// `s` without its whitespace.
pub open spec fn strip_whitespace(s: Seq<char>) -> Seq<char> {
    s.filter(|c: char| !is_whitespace(c))
}

/// The values of `tokens`, one after the other.
pub open spec fn concat_values(tokens: Seq<TokenView>) -> Seq<char>
    decreases tokens.len(),
{
    if tokens.len() == 0 {
        Seq::empty()
    } else {
        concat_values(tokens.drop_last()) + tokens.last().value
    }
}

/// No two neighbours in `tokens` have the same kind.
pub open spec fn kinds_alternate(tokens: Seq<TokenView>) -> bool {
    forall|i: int, j: int|
        0 <= i && j == i + 1 && j < tokens.len() ==> (#[trigger] tokens[i]).kind != (
        #[trigger] tokens[j]).kind
}

/// Where `s` ends in a character that is not whitespace, its last token
/// ends in that character and has its kind.
pub proof fn lemma_last_token(s: Seq<char>)
    requires
        s.len() > 0,
        !is_whitespace(s.last()),
    ensures
        tokens_of(s).len() > 0,
        tokens_of(s).last().kind == char_kind(s.last()),
        tokens_of(s).last().value.len() > 0,
        tokens_of(s).last().value.last() == s.last(),
    decreases s.len(),
{
    if s.len() >= 2 && class_of(s[s.len() - 2]) == class_of(s.last()) {
        let init = s.drop_last();
        assert(init.last() == s[s.len() - 2]);
        lemma_last_token(init);
    }
}

/// One more character of whitespace adds no token.
pub proof fn lemma_push_whitespace(s: Seq<char>, c: char)
    requires
        is_whitespace(c),
    ensures
        tokens_of(s.push(c)) == tokens_of(s),
{
    assert(s.push(c).drop_last() == s);
}

/// A character whose class differs from that of the one before it starts
/// a token.
pub proof fn lemma_push_new_run(s: Seq<char>, c: char)
    requires
        !is_whitespace(c),
        s.len() > 0 ==> class_of(s.last()) != class_of(c),
    ensures
        tokens_of(s.push(c)) == tokens_of(s).push(TokenView { kind: char_kind(c), value: seq![c] }),
{
    assert(s.push(c).drop_last() == s);
}

/// A character of the class of the one before it joins the last token.
pub proof fn lemma_push_same_run(s: Seq<char>, c: char)
    requires
        !is_whitespace(c),
        s.len() > 0,
        class_of(s.last()) == class_of(c),
    ensures
        tokens_of(s).len() > 0,
        tokens_of(s.push(c)) == tokens_of(s).drop_last().push(
            TokenView { kind: char_kind(c), value: tokens_of(s).last().value.push(c) },
        ),
{
    assert(s.push(c).drop_last() == s);
    lemma_last_token(s);
    assert(char_kind(s.last()) == char_kind(c));
}

} // verus!
