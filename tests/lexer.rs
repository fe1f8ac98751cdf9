use lambda_calc::lexer::{LexError, Lexer, Token};

#[test]
fn test_tokenize() {
    let input = "(\\x. x y) (\\z. z)";
    let mut lexer = Lexer::new(input);
    let tokens = lexer.tokenize().unwrap();

    assert_eq!(
        tokens,
        vec![
            Token::LeftParen,
            Token::Lambda,
            Token::Identifier("x".to_string()),
            Token::Dot,
            Token::Identifier("x".to_string()),
            Token::Identifier("y".to_string()),
            Token::RightParen,
            Token::LeftParen,
            Token::Lambda,
            Token::Identifier("z".to_string()),
            Token::Dot,
            Token::Identifier("z".to_string()),
            Token::RightParen,
        ]
    );
}

#[test]
fn tokenize_rejects_unexpected_character() {
    let mut lexer = Lexer::new("x $ y");
    assert_eq!(lexer.tokenize(), Err(LexError::UnexpectedCharacter('$', 2)));
}

#[test]
fn tokenize_position_counts_characters() {
    let mut lexer = Lexer::new("\u{3bb}x. x1");
    assert_eq!(lexer.tokenize(), Err(LexError::UnexpectedCharacter('1', 5)));
}

#[test]
fn tokenize_lambda_glyph_and_long_identifiers() {
    let mut lexer = Lexer::new("\u{3bb}foo.\tbar\n baz");
    assert_eq!(
        lexer.tokenize(),
        Ok(vec![
            Token::Lambda,
            Token::Identifier("foo".to_string()),
            Token::Dot,
            Token::Identifier("bar".to_string()),
            Token::Identifier("baz".to_string()),
        ])
    );
}

#[test]
fn tokenize_empty_and_blank_input() {
    assert_eq!(Lexer::new("").tokenize(), Ok(vec![]));
    assert_eq!(Lexer::new("  \n").tokenize(), Ok(vec![]));
}

#[test]
fn tokenize_rejects_digits_and_underscores() {
    assert_eq!(Lexer::new("a_b").tokenize(), Err(LexError::UnexpectedCharacter('_', 1)));
    assert_eq!(Lexer::new("7").tokenize(), Err(LexError::UnexpectedCharacter('7', 0)));
}
