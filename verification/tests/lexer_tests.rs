use lexer::chars::CharPred;
use lexer::cursor::Cursor;
use lexer::lexer::consume_while;
use lexer::lexer::tokenize;
use lexer::props::tokenize_twice;
use lexer::token::LexError;
use lexer::token::LiteralKind;
use lexer::token::Location;
use lexer::token::Token;

#[test]
fn test_consume_while() {
    let mut chars = Cursor::new("hello world");
    let result = consume_while(&mut chars, CharPred::Alphabetic);
    assert_eq!(result, "hello");
}

#[test]
fn literal_int() {
    let tokens = tokenize("123").unwrap();
    assert_eq!(
        tokens,
        vec![(Token::Literal(LiteralKind::Int { value: 123 }), Location { line: 0 })]
    );
}

#[test]
fn literal_float() {
    let tokens = tokenize("123.456").unwrap();
    assert_eq!(
        tokens,
        vec![(
            Token::Literal(LiteralKind::Float { text: "123.456".to_string() }),
            Location { line: 0 }
        )]
    );
    match &tokens[0].0 {
        Token::Literal(LiteralKind::Float { text }) => {
            let value: f64 = text.parse().unwrap();
            assert_eq!(value, 123.456);
        }
        other => panic!("expected a float literal, got {:?}", other),
    }
}

#[test]
fn literal_string() {
    let tokens = tokenize("\"hello world\"").unwrap();
    assert_eq!(
        tokens,
        vec![(
            Token::Literal(LiteralKind::String { value: "hello world".to_string() }),
            Location { line: 0 }
        )]
    );
}

#[test]
fn literal_char() {
    let tokens = tokenize("'a'").unwrap();
    assert_eq!(
        tokens,
        vec![(Token::Literal(LiteralKind::Char { value: 'a' }), Location { line: 0 })]
    );
}

#[test]
fn identifier() {
    let tokens = tokenize("hello").unwrap();
    assert_eq!(
        tokens,
        vec![(Token::Identifier("hello".to_string()), Location { line: 0 })]
    );
}

#[test]
fn binary_operators() {
    let tokens = tokenize("+-*/^").unwrap();
    assert_eq!(
        tokens,
        vec![
            (Token::Plus, Location { line: 0 }),
            (Token::Minus, Location { line: 0 }),
            (Token::Multiply, Location { line: 0 }),
            (Token::Divide, Location { line: 0 }),
            (Token::Carat, Location { line: 0 })
        ]
    );
}

#[test]
fn logical_operators() {
    let tokens = tokenize("<>&=").unwrap();
    assert_eq!(
        tokens,
        vec![
            (Token::LessThan, Location { line: 0 }),
            (Token::GreaterThan, Location { line: 0 }),
            (Token::And, Location { line: 0 }),
            (Token::Eq, Location { line: 0 })
        ]
    );
}

#[test]
fn arrow_vs_minus() {
    let tokens = tokenize("-> -").unwrap();
    assert_eq!(
        tokens,
        vec![
            (Token::Arrow, Location { line: 0 }),
            (Token::Minus, Location { line: 0 })
        ]
    );
}

#[test]
fn comments() {
    let tokens = tokenize("!hello world\n").unwrap();
    assert_eq!(tokens, vec![]);
}

#[test]
fn checking_line_count() {
    let tokens = tokenize("hello\nworld").unwrap();
    assert_eq!(
        tokens,
        vec![
            (Token::Identifier("hello".to_string()), Location { line: 0 }),
            (Token::Identifier("world".to_string()), Location { line: 1 })
        ]
    );
}

#[test]
fn minus_then_greater_stays_two_tokens() {
    let tokens = tokenize("- >").unwrap();
    assert_eq!(
        tokens,
        vec![
            (Token::Minus, Location { line: 0 }),
            (Token::GreaterThan, Location { line: 0 })
        ]
    );
}

#[test]
fn punctuation_tokens() {
    let tokens = tokenize("(){}:;").unwrap();
    assert_eq!(
        tokens,
        vec![
            (Token::LParen, Location { line: 0 }),
            (Token::RParen, Location { line: 0 }),
            (Token::LBrace, Location { line: 0 }),
            (Token::RBrace, Location { line: 0 }),
            (Token::Colon, Location { line: 0 }),
            (Token::Semi, Location { line: 0 })
        ]
    );
}

#[test]
fn keyword_true_is_boolean_literal() {
    let tokens = tokenize("true").unwrap();
    assert_eq!(
        tokens,
        vec![(Token::Literal(LiteralKind::Bool { value: true }), Location { line: 0 })]
    );
}

#[test]
fn keyword_false_is_boolean_literal() {
    let tokens = tokenize("false").unwrap();
    assert_eq!(
        tokens,
        vec![(Token::Literal(LiteralKind::Bool { value: false }), Location { line: 0 })]
    );
}

#[test]
fn truex_is_one_identifier() {
    let tokens = tokenize("truex").unwrap();
    assert_eq!(
        tokens,
        vec![(Token::Identifier("truex".to_string()), Location { line: 0 })]
    );
}

#[test]
fn identifier_with_underscore_digits_apostrophe() {
    let tokens = tokenize("foo_bar'2").unwrap();
    assert_eq!(
        tokens,
        vec![(Token::Identifier("foo_bar'2".to_string()), Location { line: 0 })]
    );
}

#[test]
fn empty_input_gives_no_tokens() {
    let tokens = tokenize("").unwrap();
    assert_eq!(tokens, vec![]);
}

#[test]
fn whitespace_and_comments_give_no_tokens() {
    let tokens = tokenize("  \t ! a comment\n\r\n ! another").unwrap();
    assert_eq!(tokens, vec![]);
}

#[test]
fn unterminated_string_fails() {
    let err = tokenize("\"abc").unwrap_err();
    assert_eq!(err, LexError::UnterminatedString(Location { line: 0 }));
}

#[test]
fn unterminated_string_reports_starting_line() {
    let err = tokenize("x\n\"abc").unwrap_err();
    assert_eq!(err, LexError::UnterminatedString(Location { line: 1 }));
}

#[test]
fn char_literal_too_long_fails() {
    let err = tokenize("'ab'").unwrap_err();
    assert_eq!(
        err,
        LexError::InvalidCharacterLiteral("ab".to_string(), Location { line: 0 })
    );
}

#[test]
fn char_literal_empty_fails() {
    let err = tokenize("''").unwrap_err();
    assert_eq!(
        err,
        LexError::InvalidCharacterLiteral("".to_string(), Location { line: 0 })
    );
}

#[test]
fn number_with_two_dots_fails() {
    let err = tokenize("1.2.3").unwrap_err();
    assert_eq!(
        err,
        LexError::MalformedNumber("1.2.3".to_string(), Location { line: 0 })
    );
}

#[test]
fn integer_too_large_fails() {
    let err = tokenize("99999999999999999999").unwrap_err();
    assert_eq!(
        err,
        LexError::MalformedNumber("99999999999999999999".to_string(), Location { line: 0 })
    );
}

#[test]
fn largest_integer_still_fits() {
    let tokens = tokenize("9223372036854775807").unwrap();
    assert_eq!(
        tokens,
        vec![(
            Token::Literal(LiteralKind::Int { value: 9223372036854775807 }),
            Location { line: 0 }
        )]
    );
    let err = tokenize("9223372036854775808").unwrap_err();
    assert_eq!(
        err,
        LexError::MalformedNumber("9223372036854775808".to_string(), Location { line: 0 })
    );
}

#[test]
fn trailing_dot_is_a_float_run() {
    let tokens = tokenize("5.").unwrap();
    assert_eq!(
        tokens,
        vec![(
            Token::Literal(LiteralKind::Float { text: "5.".to_string() }),
            Location { line: 0 }
        )]
    );
}

#[test]
fn unexpected_character_fails() {
    let err = tokenize("@").unwrap_err();
    assert_eq!(err, LexError::UnexpectedCharacter('@', Location { line: 0 }));
}

#[test]
fn unexpected_character_reports_line() {
    let err = tokenize("hello\n@").unwrap_err();
    assert_eq!(err, LexError::UnexpectedCharacter('@', Location { line: 1 }));
}

#[test]
fn string_body_keeps_backslash_and_newline() {
    let tokens = tokenize("\"a\\n\nb\" c").unwrap();
    assert_eq!(
        tokens,
        vec![
            (
                Token::Literal(LiteralKind::String { value: "a\\n\nb".to_string() }),
                Location { line: 0 }
            ),
            (Token::Identifier("c".to_string()), Location { line: 0 })
        ]
    );
}

#[test]
fn tokenizing_twice_gives_identical_output() {
    let input = "let' x = 3.5 ! bind\n{ y -> \"z\" }";
    let first = tokenize(input);
    let second = tokenize(input);
    assert_eq!(first, second);
    let (a, b) = tokenize_twice(input);
    assert_eq!(a, b);
    assert_eq!(a, first);
}

#[test]
fn mixed_expression_tokens_in_order() {
    let tokens = tokenize("f(x: 12) -> y < 3.5;").unwrap();
    assert_eq!(
        tokens,
        vec![
            (Token::Identifier("f".to_string()), Location { line: 0 }),
            (Token::LParen, Location { line: 0 }),
            (Token::Identifier("x".to_string()), Location { line: 0 }),
            (Token::Colon, Location { line: 0 }),
            (Token::Literal(LiteralKind::Int { value: 12 }), Location { line: 0 }),
            (Token::RParen, Location { line: 0 }),
            (Token::Arrow, Location { line: 0 }),
            (Token::Identifier("y".to_string()), Location { line: 0 }),
            (Token::LessThan, Location { line: 0 }),
            (Token::Literal(LiteralKind::Float { text: "3.5".to_string() }), Location { line: 0 }),
            (Token::Semi, Location { line: 0 })
        ]
    );
}
