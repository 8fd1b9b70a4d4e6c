use crate::laws::lemma_tokens_are_runs;
use crate::model::{
    is_run, lemma_push_new_run, lemma_push_same_run, lemma_push_whitespace, recognized, tokens_of,
};
use crate::state::{class_of, classify, is_whitespace, kind_of, token_kind, State};
use crate::token::{token_views, LexError, Token, TokenView};
use vstd::prelude::*;
use vstd::string::{is_ascii, is_ascii_spec_bytes, StrSliceExecFns};

verus! {

/// `String::push` of std: the string afterwards is the string before
/// with `ch` appended at its end.
pub assume_specification[ String::push ](s: &mut String, ch: char)
    ensures
        final(s)@ == old(s)@.push(ch),
;

/// One run of the machine: the input, how far it has been consumed, the
/// class of the run in progress, the characters gathered for it, and the
/// tokens emitted so far.
pub struct Lexer {
    pub tokens: Vec<Token>,
    pub input: Vec<char>,
    pub input_index: usize,
    pub state: State,
    pub token: String,
}

/// A `Lexer` in contracts.
pub struct LexerView {
    pub tokens: Seq<TokenView>,
    pub input: Seq<char>,
    pub input_index: int,
    pub state: State,
    pub token: Seq<char>,
}

impl View for Lexer {
    type V = LexerView;

    open spec fn view(&self) -> LexerView {
        LexerView {
            tokens: token_views(self.tokens@),
            input: self.input@,
            input_index: self.input_index as int,
            state: self.state,
            token: self.token@,
        }
    }
}

/// The class of what stands at `index`: that of the character there, or
/// `End` just behind the last character. `None` for a character outside
/// the alphabet, and for an index further out.
pub open spec fn next_class(input: Seq<char>, index: int) -> Option<State> {
    if index == input.len() {
        Some(State::End)
    } else if 0 <= index < input.len() {
        class_of(input[index])
    } else {
        None
    }
}

/// What one step does to the machine, but for its state, when the class of
/// what stands at `input_index` is `new_state`. In this order:
/// before the first character, a character that belongs to a token is
/// gathered, whitespace is passed over, and the end leaves all as it is;
/// in whitespace, more whitespace is passed over and anything else is left
/// where it is; a character of the class of the run in progress is
/// gathered; any other ends the run, whose token is emitted, and is left
/// where it is.
pub open spec fn accept_spec(l: LexerView, new_state: State) -> LexerView {
    let consumed = LexerView { input_index: l.input_index + 1, ..l };
    let gathered = LexerView { token: l.token.push(l.input[l.input_index]), ..consumed };
    if l.state == State::Start {
        if new_state == State::End {
            l
        } else if new_state == State::Whitespace {
            consumed
        } else {
            gathered
        }
    } else if l.state == State::Whitespace {
        if new_state == State::Whitespace {
            consumed
        } else {
            l
        }
    } else if l.state == new_state {
        gathered
    } else {
        LexerView {
            tokens: l.tokens.push(TokenView { kind: kind_of(l.state), value: l.token }),
            token: Seq::empty(),
            ..l
        }
    }
}

/// The machine after a whole step: `accept_spec`, then the new state.
pub open spec fn step_spec(l: LexerView, new_state: State) -> LexerView {
    LexerView { state: new_state, ..accept_spec(l, new_state) }
}

/// What holds of the machine between steps: all it has consumed belongs to
/// the alphabet, and the tokens emitted, with the run in progress as one
/// more where there is one, are the tokens of what it has consumed.
pub open spec fn consistent(l: LexerView) -> bool {
    let s = l.input;
    let p = l.input_index;
    let seen = s.take(p);
    &&& 0 <= p <= s.len()
    &&& recognized(seen)
    &&& match l.state {
        State::Start => p == 0 && l.token.len() == 0 && l.tokens.len() == 0,
        State::End => p == s.len() && l.tokens == tokens_of(s),
        State::Whitespace => {
            &&& l.token.len() == 0
            &&& l.tokens == tokens_of(seen)
            &&& (p > 0 && is_whitespace(s[p - 1])) || (p < s.len() && is_whitespace(s[p]))
        },
        run => if l.token.len() == 0 {
            &&& l.tokens == tokens_of(seen)
            &&& p < s.len()
            &&& class_of(s[p]) == Some(run)
            &&& p > 0 ==> class_of(s[p - 1]) != Some(run)
        } else {
            &&& p > 0
            &&& class_of(s[p - 1]) == Some(run)
            &&& l.tokens.push(TokenView { kind: kind_of(run), value: l.token }) == tokens_of(seen)
        },
    }
}

/// A bound on the steps that are left: two for each character not yet
/// consumed, and what the step in hand takes where it consumes none.
pub open spec fn steps_left(l: LexerView) -> int {
    2 * (l.input.len() - l.input_index) + if l.state == State::Start {
        2int
    } else if next_class(l.input, l.input_index) == Some(l.state) {
        0int
    } else {
        1int
    }
}

/// A step keeps the machine consistent and brings it nearer to its end.
pub proof fn lemma_step(l: LexerView, new_state: State)
    requires
        consistent(l),
        l.state != State::End,
        next_class(l.input, l.input_index) == Some(new_state),
    ensures
        consistent(step_spec(l, new_state)),
        steps_left(step_spec(l, new_state)) < steps_left(l),
{
    let s = l.input;
    let p = l.input_index;
    let seen = s.take(p);
    let after = step_spec(l, new_state);
    if l.state == State::Start {
        assert(l.tokens =~= Seq::<TokenView>::empty());
        assert(seen =~= Seq::<char>::empty());
    }
    if new_state == State::End {
        assert(seen == s);
    } else {
        let c = s[p];
        assert(s.take(p + 1) == seen.push(c));
        assert(recognized(seen.push(c))) by {
            assert forall|i: int| 0 <= i < seen.push(c).len() implies (#[trigger] class_of(
                seen.push(c)[i],
            )) is Some by {
                if i < p {
                    assert(seen.push(c)[i] == seen[i]);
                }
            }
        }
        if p > 0 {
            assert(seen.last() == s[p - 1]);
        }
        if after.input_index == p + 1 {
            if new_state == State::Whitespace {
                lemma_push_whitespace(seen, c);
            } else if l.token.len() == 0 {
                lemma_push_new_run(seen, c);
                assert(l.token.push(c) =~= seq![c]);
            } else {
                lemma_push_same_run(seen, c);
                let emitted = l.tokens.push(TokenView { kind: kind_of(l.state), value: l.token });
                assert(emitted.drop_last() =~= l.tokens);
            }
        }
    }
}

/// Classifies what stands at the machine's index: `End` behind the last
/// character, else the class of the character there, or the error for one
/// outside the alphabet.
pub fn transition(lexer: &Lexer) -> (next: Result<State, LexError>)
    requires
        lexer.input_index <= lexer.input@.len(),
    ensures
        match next {
            Ok(state) => next_class(lexer.input@, lexer.input_index as int) == Some(state),
            Err(error) => next_class(lexer.input@, lexer.input_index as int) is None && error
                == LexError::UnrecognizedCharacter(
                lexer.input@[lexer.input_index as int],
                lexer.input_index,
            ),
        },
{
    if lexer.input_index == lexer.input.len() {
        return Ok(State::End);
    }
    let c = lexer.input[lexer.input_index];
    match classify(c) {
        Some(state) => Ok(state),
        None => Err(LexError::UnrecognizedCharacter(c, lexer.input_index)),
    }
}

/// Takes one step, given the class of what stands at the machine's index,
/// and hands that class back as the state to go on in.
pub fn accept(lexer: &mut Lexer, new_state: State) -> (state: State)
    requires
        old(lexer).state != State::End,
        next_class(old(lexer).input@, old(lexer).input_index as int) == Some(new_state),
    ensures
        state == new_state,
        final(lexer)@ == accept_spec(old(lexer)@, new_state),
{
    let len = lexer.input.len();
    assert(new_state != State::End ==> lexer.input_index < len);
    if lexer.state == State::Start {
        if new_state == State::End {
        } else if new_state == State::Whitespace {
            lexer.input_index += 1;
        } else {
            let c = lexer.input[lexer.input_index];
            lexer.token.push(c);
            lexer.input_index += 1;
        }
    } else if lexer.state == State::Whitespace {
        if new_state == State::Whitespace {
            lexer.input_index += 1;
        }
    } else if lexer.state == new_state {
        let c = lexer.input[lexer.input_index];
        lexer.token.push(c);
        lexer.input_index += 1;
    } else {
        let kind = token_kind(lexer.state);
        let value = lexer.token.clone();
        lexer.tokens.push(Token { kind, value });
        lexer.token = String::new();
        assert(token_views(lexer.tokens@) == token_views(old(lexer).tokens@).push(
            TokenView { kind: kind_of(old(lexer).state), value: old(lexer).token@ },
        ));
    }
    new_state
}

/// The characters of `source`, in order. An input of ASCII alone is read
/// byte by byte; any other character by character.
fn chars_of(source: &str) -> (chars: Vec<char>)
    ensures
        chars@ == source@,
{
    if source.is_ascii() {
        let bytes = source.as_bytes();
        let n = bytes.len();
        let mut chars: Vec<char> = Vec::with_capacity(n);
        let mut i: usize = 0;
        proof {
            is_ascii_spec_bytes(source);
        }
        while i < n
            invariant
                is_ascii(source),
                n == source@.len(),
                bytes@ == Seq::new(source@.len(), |k: int| source@[k] as u8),
                i <= n,
                chars@ == source@.take(i as int),
            decreases n - i,
        {
            let c = bytes[i] as char;
            assert(c == source@[i as int]) by {
                let ch = source@[i as int];
                assert(bytes@[i as int] == ch as u8);
                assert(ch as u32 <= 127);
                assert((ch as u8) as char == ch);
            }
            chars.push(c);
            assert(source@.take(i + 1) == source@.take(i as int).push(source@[i as int]));
            i += 1;
        }
        assert(source@.take(n as int) == source@);
        chars
    } else {
        let n = source.unicode_len();
        let mut chars: Vec<char> = Vec::with_capacity(n);
        let mut i: usize = 0;
        while i < n
            invariant
                n == source@.len(),
                i <= n,
                chars@ == source@.take(i as int),
            decreases n - i,
        {
            chars.push(source.get_char(i));
            assert(source@.take(i + 1) == source@.take(i as int).push(source@[i as int]));
            i += 1;
        }
        assert(source@.take(n as int) == source@);
        chars
    }
}

/// The tokens of `source`, or the first character of it that is outside
/// the alphabet, with its index among the characters. Either all of the
/// input is lexed or none of it: an error comes without tokens.
pub fn lex(source: &str) -> (result: Result<Vec<Token>, LexError>)
    ensures
        result is Ok <==> recognized(source@),
        match result {
            Ok(tokens) => {
                &&& token_views(tokens@) == tokens_of(source@)
                &&& forall|i: int| 0 <= i < tokens@.len() ==> is_run(#[trigger] tokens@[i]@)
            },
            Err(LexError::UnrecognizedCharacter(c, index)) => {
                &&& index < source@.len()
                &&& source@[index as int] == c
                &&& class_of(c) is None
                &&& recognized(source@.take(index as int))
            },
        },
{
    let mut lexer = Lexer {
        tokens: Vec::new(),
        input: chars_of(source),
        input_index: 0,
        state: State::Start,
        token: String::new(),
    };
    while lexer.state != State::End
        invariant
            lexer.input@ == source@,
            consistent(lexer@),
        decreases steps_left(lexer@),
    {
        let new_state = match transition(&lexer) {
            Ok(state) => state,
            Err(error) => {
                return Err(error);
            },
        };
        proof {
            lemma_step(lexer@, new_state);
        }
        lexer.state = accept(&mut lexer, new_state);
    }
    proof {
        assert(source@.take(source@.len() as int) == source@);
        lemma_tokens_are_runs(source@);
        assert forall|i: int| 0 <= i < lexer.tokens@.len() implies is_run(
            #[trigger] lexer.tokens@[i]@,
        ) by {
            assert(lexer.tokens@[i]@ == tokens_of(source@)[i]);
        }
    }
    Ok(lexer.tokens)
}

} // verus!
