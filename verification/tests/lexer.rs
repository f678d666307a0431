use riddle::lexer::{Lexer, Token};

#[test]
fn test_lexer_basic_tokens() {
    let input = "+ - * / ( ) { } [ ] , ; = == ! != < <= > >= ";
    let mut lexer = Lexer::new(input);
    let expected_tokens = vec![
        Token::Plus,
        Token::Minus,
        Token::Asterisk,
        Token::Slash,
        Token::LParen,
        Token::RParen,
        Token::LBrace,
        Token::RBrace,
        Token::LBracket,
        Token::RBracket,
        Token::Comma,
        Token::Semicolon,
        Token::Equal,
        Token::EqualEqual,
        Token::Not,
        Token::NotEqual,
        Token::LessThan,
        Token::LessEqual,
        Token::GreaterThan,
        Token::GreaterEqual,
    ];
    for expected in expected_tokens {
        let (_start, token, _end) = lexer.next_token().expect("Failed to get next token");
        assert_eq!(token, expected);
    }
}

#[test]
fn test_lexer_identifiers_and_numbers() {
    let input = "var1 var_2 123 45.67";
    let mut lexer = Lexer::new(input);
    let expected_tokens = vec![Token::Identifier("var1".to_string()), Token::Identifier("var_2".to_string()), Token::IntLiteral("123".to_string()), Token::RealLiteral("45.67".to_string())];
    for expected in expected_tokens {
        let (_start, token, _end) = lexer.next_token().expect("Failed to get next token");
        assert_eq!(token, expected);
    }
}

#[test]
fn test_lexer_string_literals() {
    let input = r#""hello" "world""#;
    let mut lexer = Lexer::new(input);
    let expected_tokens = vec![Token::StringLiteral("hello".to_string()), Token::StringLiteral("world".to_string())];
    for expected in expected_tokens {
        let (_start, token, _end) = lexer.next_token().expect("Failed to get next token");
        assert_eq!(token, expected);
    }
}

#[test]
fn test_lexer_keywords() {
    let input = "int real string class predicate new for this void return fact goal or";
    let mut lexer = Lexer::new(input);
    let expected_tokens = vec![Token::Int, Token::Real, Token::String, Token::Class, Token::Predicate, Token::New, Token::For, Token::This, Token::Void, Token::Return, Token::Fact, Token::Goal, Token::Or];
    for expected in expected_tokens {
        let (_start, token, _end) = lexer.next_token().expect("Failed to get next token");
        assert_eq!(token, expected);
    }
}

#[test]
fn test_lexer_riddle() {
    let input = "class Person { int age; string name; }";
    let mut lexer = Lexer::new(input);
    let expected_tokens = vec![Token::Class, Token::Identifier("Person".to_string()), Token::LBrace, Token::Int, Token::Identifier("age".to_string()), Token::Semicolon, Token::String, Token::Identifier("name".to_string()), Token::Semicolon, Token::RBrace];
    for expected in expected_tokens {
        let (_start, token, _end) = lexer.next_token().expect("Failed to get next token");
        assert_eq!(token, expected);
    }
}

#[test]
fn test_lexer_dot_numbers() {
    let input = ".5 . .123 0.5";
    let mut lexer = Lexer::new(input);

    // .5 -> RealLiteral
    let (_start, token, _end) = lexer.next_token().expect("Failed to get next token");
    assert_eq!(token, Token::RealLiteral(".5".to_string()));

    // . -> Dot
    let (_start, token, _end) = lexer.next_token().expect("Failed to get next token");
    assert_eq!(token, Token::Dot);

    // .123 -> RealLiteral
    let (_start, token, _end) = lexer.next_token().expect("Failed to get next token");
    assert_eq!(token, Token::RealLiteral(".123".to_string()));

    // 0.5 -> RealLiteral
    let (_start, token, _end) = lexer.next_token().expect("Failed to get next token");
    assert_eq!(token, Token::RealLiteral("0.5".to_string()));
}

#[test]
fn test_lexer_skips_single_line_comments() {
    let input = "int x; // comment\n real y;";
    let mut lexer = Lexer::new(input);
    let expected_tokens = vec![Token::Int, Token::Identifier("x".to_string()), Token::Semicolon, Token::Real, Token::Identifier("y".to_string()), Token::Semicolon];

    for expected in expected_tokens {
        let (_start, token, _end) = lexer.next_token().expect("Failed to get next token");
        assert_eq!(token, expected);
    }
}

#[test]
fn test_lexer_skips_multiline_comments() {
    let input = "int /* ignore\nthis */ value;";
    let mut lexer = Lexer::new(input);
    let expected_tokens = vec![Token::Int, Token::Identifier("value".to_string()), Token::Semicolon];

    for expected in expected_tokens {
        let (_start, token, _end) = lexer.next_token().expect("Failed to get next token");
        assert_eq!(token, expected);
    }
}

#[test]
fn test_lexer_slash_still_tokenized_when_not_comment() {
    let input = "a / b";
    let mut lexer = Lexer::new(input);
    let expected_tokens = vec![Token::Identifier("a".to_string()), Token::Slash, Token::Identifier("b".to_string())];

    for expected in expected_tokens {
        let (_start, token, _end) = lexer.next_token().expect("Failed to get next token");
        assert_eq!(token, expected);
    }
}

#[test]
fn unicode_white_space_separates_tokens() {
    let mut lexer = Lexer::new("a\u{00A0}b\u{3000}c\u{2028}d");
    for name in ["a", "b", "c", "d"] {
        let (_start, token, _end) = lexer.next_token().expect("Failed to get next token");
        assert_eq!(token, Token::Identifier(name.to_string()));
    }
    let (_start, token, _end) = lexer.next_token().expect("Failed to get next token");
    assert_eq!(token, Token::Eof);
}
