use sql_parser::token::{Keyword, Token};
use sql_parser::tokenizer::{Tokenizer, TokenizerError};

#[test]
fn test_tokenizer_single_char_tokens() {
    let input = "( ) , ; + - * / = > <";
    let mut tokenizer = Tokenizer::new(input);
    let tokens = tokenizer.tokenize().unwrap();
    assert_eq!(
        tokens,
        vec![
            Token::LeftParentheses,
            Token::RightParentheses,
            Token::Comma,
            Token::Semicolon,
            Token::Plus,
            Token::Minus,
            Token::Star,
            Token::Divide,
            Token::Equal,
            Token::GreaterThan,
            Token::LessThan,
            Token::Eof,
        ]
    );
}

#[test]
fn test_tokenizer_multi_char_tokens() {
    let input = ">= <= !=";
    let mut tokenizer = Tokenizer::new(input);
    let tokens = tokenizer.tokenize().unwrap();
    assert_eq!(
        tokens,
        vec![
            Token::GreaterThanOrEqual,
            Token::LessThanOrEqual,
            Token::NotEqual,
            Token::Eof,
        ]
    );
}

#[test]
fn test_tokenizer_numbers() {
    let input = "42 123";
    let mut tokenizer = Tokenizer::new(input);
    let tokens = tokenizer.tokenize().unwrap();
    assert_eq!(
        tokens,
        vec![Token::Number(42), Token::Number(123), Token::Eof,]
    );
}

#[test]
fn test_tokenizer_strings() {
    let input = r#""hello" 'world'"#;
    let mut tokenizer = Tokenizer::new(input);
    let tokens = tokenizer.tokenize().unwrap();
    assert_eq!(
        tokens,
        vec![
            Token::String("hello".to_string()),
            Token::String("world".to_string()),
            Token::Eof,
        ]
    );
}

#[test]
fn test_tokenizer_keywords_and_identifiers() {
    let input = "SELECT FROM users age";
    let mut tokenizer = Tokenizer::new(input);
    let tokens = tokenizer.tokenize().unwrap();
    assert_eq!(
        tokens,
        vec![
            Token::Keyword(Keyword::Select),
            Token::Keyword(Keyword::From),
            Token::Identifier("users".to_string()),
            Token::Identifier("age".to_string()),
            Token::Eof,
        ]
    );
}

#[test]
fn test_tokenizer_error_unterminated_string() {
    let input = r#""hello"#;
    let mut tokenizer = Tokenizer::new(input);
    let result = tokenizer.tokenize();
    assert!(matches!(result, Err(TokenizerError::UnterminatedString)));
}

#[test]
fn test_tokenizer_error_invalid_char() {
    let input = "#";
    let mut tokenizer = Tokenizer::new(input);
    let result = tokenizer.tokenize();
    assert!(matches!(result, Err(TokenizerError::UnexpectedChar('#'))));
}

#[test]
fn test_tokenizer_keywords_case_insensitive() {
    let input = "select From WHERE oRdEr";
    let mut tokenizer = Tokenizer::new(input);
    let tokens = tokenizer.tokenize().unwrap();
    assert_eq!(
        tokens,
        vec![
            Token::Keyword(Keyword::Select),
            Token::Keyword(Keyword::From),
            Token::Keyword(Keyword::Where),
            Token::Keyword(Keyword::Order),
            Token::Eof,
        ]
    );
}

#[test]
fn test_tokenizer_string_escapes() {
    let input = r#""a\"b\\c""#;
    let mut tokenizer = Tokenizer::new(input);
    let tokens = tokenizer.tokenize().unwrap();
    assert_eq!(
        tokens,
        vec![Token::String("a\"b\\c".to_string()), Token::Eof,]
    );
}

#[test]
fn test_tokenizer_error_number_overflow() {
    // one digit past the largest unsigned 64-bit value
    let input = "18446744073709551616";
    let mut tokenizer = Tokenizer::new(input);
    let result = tokenizer.tokenize();
    assert!(matches!(result, Err(TokenizerError::InvalidNumber)));
}

#[test]
fn test_tokenizer_largest_number() {
    let input = "18446744073709551615";
    let mut tokenizer = Tokenizer::new(input);
    let tokens = tokenizer.tokenize().unwrap();
    assert_eq!(tokens, vec![Token::Number(u64::MAX), Token::Eof]);
}

#[test]
fn test_tokenizer_error_lone_bang() {
    let input = "a ! b";
    let mut tokenizer = Tokenizer::new(input);
    let result = tokenizer.tokenize();
    assert!(matches!(result, Err(TokenizerError::UnexpectedChar('!'))));
}

#[test]
fn test_tokenizer_empty_input() {
    let mut tokenizer = Tokenizer::new("");
    let tokens = tokenizer.tokenize().unwrap();
    assert_eq!(tokens, vec![Token::Eof]);
}

#[test]
fn test_tokenizer_ends_with_single_eof() {
    let input = "SELECT a, b FROM t WHERE c >= 10;";
    let mut tokenizer = Tokenizer::new(input);
    let tokens = tokenizer.tokenize().unwrap();
    assert_eq!(tokens.last(), Some(&Token::Eof));
    let eof_count = tokens.iter().filter(|t| matches!(t, Token::Eof)).count();
    assert_eq!(eof_count, 1);
}
