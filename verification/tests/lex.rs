use lexer::machine::lex;
use lexer::token::{LexError, Token, TokenKind};

fn token(kind: TokenKind, value: &str) -> Token {
    Token { kind, value: value.to_string() }
}

fn concat(tokens: &[Token]) -> String {
    let mut all = String::new();
    for t in tokens {
        all.push_str(&t.value);
    }
    all
}

fn without_whitespace(source: &str) -> String {
    source.chars().filter(|c| !matches!(*c, ' ' | '\t' | '\n')).collect()
}

#[test]
fn let_statement() {
    let tokens = lex("let x = 10;").unwrap();
    assert_eq!(
        tokens,
        vec![
            token(TokenKind::Identifier, "let"),
            token(TokenKind::Identifier, "x"),
            token(TokenKind::Delimiter, "="),
            token(TokenKind::Number, "10"),
            token(TokenKind::Delimiter, ";"),
        ]
    );
}

#[test]
fn sum_without_spaces() {
    let tokens = lex("a+b").unwrap();
    assert_eq!(
        tokens,
        vec![
            token(TokenKind::Identifier, "a"),
            token(TokenKind::Operator, "+"),
            token(TokenKind::Identifier, "b"),
        ]
    );
}

#[test]
fn number_between_spaces() {
    let tokens = lex("  42  ").unwrap();
    assert_eq!(tokens, vec![token(TokenKind::Number, "42")]);
}

#[test]
fn one_leading_space_is_not_part_of_the_token() {
    assert_eq!(lex(" a").unwrap(), vec![token(TokenKind::Identifier, "a")]);
    assert_eq!(lex("\n7").unwrap(), vec![token(TokenKind::Number, "7")]);
}

#[test]
fn unrecognized_first_character() {
    assert_eq!(lex("@"), Err(LexError::UnrecognizedCharacter('@', 0)));
}

#[test]
fn unrecognized_character_later_on() {
    assert_eq!(lex("ab $ cd"), Err(LexError::UnrecognizedCharacter('$', 3)));
    assert_eq!(lex("1+2 # 3 @"), Err(LexError::UnrecognizedCharacter('#', 4)));
    assert_eq!(lex("x = 1.5;"), Err(LexError::UnrecognizedCharacter('.', 5)));
}

#[test]
fn unrecognized_character_gives_no_tokens() {
    assert!(lex("let x = 10; @").is_err());
    assert_eq!(lex("let x = 10; @"), Err(LexError::UnrecognizedCharacter('@', 12)));
}

#[test]
fn letters_outside_ascii_are_unrecognized() {
    assert_eq!(lex("é"), Err(LexError::UnrecognizedCharacter('é', 0)));
    assert_eq!(lex("né"), Err(LexError::UnrecognizedCharacter('é', 1)));
    assert_eq!(lex("éa@"), Err(LexError::UnrecognizedCharacter('é', 0)));
}

#[test]
fn index_counts_characters() {
    assert_eq!(lex("a é"), Err(LexError::UnrecognizedCharacter('é', 2)));
}

#[test]
fn nul_is_unrecognized() {
    assert_eq!(lex("a\0"), Err(LexError::UnrecognizedCharacter('\0', 1)));
    assert_eq!(lex("\0"), Err(LexError::UnrecognizedCharacter('\0', 0)));
}

#[test]
fn carriage_return_is_unrecognized() {
    assert_eq!(lex("a\r\nb"), Err(LexError::UnrecognizedCharacter('\r', 1)));
}

#[test]
fn empty_input() {
    assert_eq!(lex(""), Ok(vec![]));
}

#[test]
fn whitespace_only() {
    assert_eq!(lex(" "), Ok(vec![]));
    assert_eq!(lex(" \t\n  "), Ok(vec![]));
}

#[test]
fn final_run_is_flushed() {
    assert_eq!(lex("abc").unwrap(), vec![token(TokenKind::Identifier, "abc")]);
    assert_eq!(
        lex("abc 123").unwrap(),
        vec![token(TokenKind::Identifier, "abc"), token(TokenKind::Number, "123")]
    );
    assert_eq!(
        lex("x;").unwrap(),
        vec![token(TokenKind::Identifier, "x"), token(TokenKind::Delimiter, ";")]
    );
}

#[test]
fn whitespace_separates_tokens_of_one_kind() {
    assert_eq!(
        lex("1 2").unwrap(),
        vec![token(TokenKind::Number, "1"), token(TokenKind::Number, "2")]
    );
    assert_eq!(
        lex("ab\tcd\nef").unwrap(),
        vec![
            token(TokenKind::Identifier, "ab"),
            token(TokenKind::Identifier, "cd"),
            token(TokenKind::Identifier, "ef"),
        ]
    );
    assert_eq!(
        lex("+ -").unwrap(),
        vec![token(TokenKind::Operator, "+"), token(TokenKind::Operator, "-")]
    );
}

#[test]
fn neighbours_of_one_class_form_one_token() {
    assert_eq!(lex("+-*/").unwrap(), vec![token(TokenKind::Operator, "+-*/")]);
    assert_eq!(lex("=;").unwrap(), vec![token(TokenKind::Delimiter, "=;")]);
    assert_eq!(lex("aZ").unwrap(), vec![token(TokenKind::Identifier, "aZ")]);
    assert_eq!(lex("0123456789").unwrap(), vec![token(TokenKind::Number, "0123456789")]);
}

#[test]
fn digits_and_letters_are_separate_runs() {
    assert_eq!(
        lex("x1y").unwrap(),
        vec![
            token(TokenKind::Identifier, "x"),
            token(TokenKind::Number, "1"),
            token(TokenKind::Identifier, "y"),
        ]
    );
}

#[test]
fn every_token_is_non_empty() {
    for source in ["let x = 10;", " a  +\tb\n", "1 2", "", "   ", ";;=+-9z"] {
        for t in lex(source).unwrap() {
            assert!(!t.value.is_empty());
        }
    }
}

#[test]
fn every_token_holds_one_class() {
    for t in lex("foo = bar1 + 22*baz ;; -").unwrap() {
        let fits = |c: char| match t.kind {
            TokenKind::Number => c.is_ascii_digit(),
            TokenKind::Identifier => c.is_ascii_alphabetic(),
            TokenKind::Operator => matches!(c, '+' | '-' | '*' | '/'),
            TokenKind::Delimiter => matches!(c, '=' | ';'),
        };
        assert!(t.value.chars().all(fits));
    }
}

#[test]
fn values_are_the_input_without_whitespace() {
    for source in ["let x = 10;", "  42  ", "a+b", "\t1 2\n3", "x1y  =; +"] {
        let tokens = lex(source).unwrap();
        assert_eq!(concat(&tokens), without_whitespace(source));
    }
    assert_eq!(concat(&lex("let x = 10;").unwrap()), "letx=10;");
}

#[test]
fn lexing_the_values_again_gives_the_same_tokens() {
    for source in ["a + b", " x = 10 ; ", "a+b", "1 +\n2"] {
        let tokens = lex(source).unwrap();
        assert_eq!(lex(&concat(&tokens)).unwrap(), tokens);
    }
}

#[test]
fn lexing_the_values_again_merges_equal_neighbours() {
    let tokens = lex("1 2").unwrap();
    assert_eq!(lex(&concat(&tokens)).unwrap(), vec![token(TokenKind::Number, "12")]);
}

#[test]
fn whitespace_splits_the_input() {
    let mut both = lex("ab1").unwrap();
    both.extend(lex("2+c").unwrap());
    assert_eq!(lex("ab1 2+c").unwrap(), both);
    assert_eq!(lex("ab1\t2+c").unwrap(), both);
}

#[test]
fn long_input() {
    let source = "ab 12 ".repeat(500);
    let tokens = lex(&source).unwrap();
    assert_eq!(tokens.len(), 1000);
    assert_eq!(tokens[998], token(TokenKind::Identifier, "ab"));
    assert_eq!(tokens[999], token(TokenKind::Number, "12"));
}

#[test]
fn change_of_class_splits_the_input() {
    let mut both = lex("ab").unwrap();
    both.extend(lex("12 +").unwrap());
    assert_eq!(lex("ab12 +").unwrap(), both);
    assert_eq!(
        both,
        vec![
            token(TokenKind::Identifier, "ab"),
            token(TokenKind::Number, "12"),
            token(TokenKind::Operator, "+"),
        ]
    );
}

#[test]
fn last_token_is_the_longest_end_of_one_class() {
    let tokens = lex("a bb ccc").unwrap();
    assert_eq!(tokens[2], token(TokenKind::Identifier, "ccc"));
    let tokens = lex("1+22").unwrap();
    assert_eq!(tokens[2], token(TokenKind::Number, "22"));
}
