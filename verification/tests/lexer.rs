use lithe::interpreter::lexer::LexerErrorType;
use lithe::interpreter::{Lexer, LexerError, TokenType};

fn token_types(source: &str) -> Vec<TokenType> {
    Lexer::new(source.to_string())
        .tokenise()
        .tokens
        .into_iter()
        .map(|token| token.token_type)
        .collect()
}

fn lexemes(source: &str) -> Vec<String> {
    Lexer::new(source.to_string())
        .tokenise()
        .tokens
        .into_iter()
        .map(|token| token.lexeme)
        .collect()
}

fn positions(source: &str) -> Vec<(usize, usize)> {
    Lexer::new(source.to_string())
        .tokenise()
        .tokens
        .into_iter()
        .map(|token| (token.line, token.column))
        .collect()
}

fn errors(source: &str) -> Vec<LexerError> {
    Lexer::new(source.to_string()).tokenise().errors
}

#[test]
fn tokenises_punctuation_and_single_character_operators() {
    assert_eq!(
        token_types("[](){}.^;$*/%\\#, +"),
        vec![
            TokenType::LBracket,
            TokenType::RBracket,
            TokenType::LParen,
            TokenType::RParen,
            TokenType::LBrace,
            TokenType::RBrace,
            TokenType::Dot,
            TokenType::Caret,
            TokenType::SemiColon,
            TokenType::Dollar,
            TokenType::Star,
            TokenType::Divide,
            TokenType::Modulo,
            TokenType::Backslash,
            TokenType::Skip,
            TokenType::Comma,
            TokenType::Plus,
            TokenType::EOF,
        ]
    );
}

#[test]
fn tokenises_multi_character_operators_and_fallback_variants() {
    assert_eq!(
        token_types("!= ! <= < >= > -> - := || && =="),
        vec![
            TokenType::NotEqual,
            TokenType::Not,
            TokenType::LessThanEqual,
            TokenType::LAngleBracket,
            TokenType::GreaterThanEqual,
            TokenType::RAngleBracket,
            TokenType::Arrow,
            TokenType::Minus,
            TokenType::Assignment,
            TokenType::Or,
            TokenType::And,
            TokenType::Equal,
            TokenType::EOF,
        ]
    );
}

#[test]
fn tokenises_keywords_identifiers_and_integer_literals() {
    assert_eq!(
        token_types(
            "while do print input int return if else break true false fn abc abc123 rnd_bool _ 42",
        ),
        vec![
            TokenType::While,
            TokenType::Do,
            TokenType::Print,
            TokenType::Input,
            TokenType::Int,
            TokenType::Return,
            TokenType::If,
            TokenType::Else,
            TokenType::Break,
            TokenType::True,
            TokenType::False,
            TokenType::Fn,
            TokenType::Identifier("abc".to_string()),
            TokenType::Identifier("abc123".to_string()),
            TokenType::Identifier("rnd_bool".to_string()),
            TokenType::Identifier("_".to_string()),
            TokenType::Integer(42),
            TokenType::EOF,
        ]
    );
}

#[test]
fn preserves_original_lexemes_for_emitted_tokens() {
    assert_eq!(
        lexemes("print abc123 := 42"),
        vec![
            "print".to_string(),
            "abc123".to_string(),
            ":=".to_string(),
            "42".to_string(),
            String::new(),
        ]
    );
}

#[test]
fn ignores_ascii_whitespace_between_tokens() {
    assert_eq!(
        token_types(" \n\tprint   7\r\nbreak "),
        vec![
            TokenType::Print,
            TokenType::Integer(7),
            TokenType::Break,
            TokenType::EOF,
        ]
    );
}

#[test]
fn reports_incomplete_compound_operators() {
    let result = Lexer::new(": | & =".to_string()).tokenise();

    assert_eq!(result.tokens.len(), 1);
    assert_eq!(result.tokens[0].token_type, TokenType::EOF);
    assert_eq!(
        result.errors.iter().map(|error| error.index).collect::<Vec<_>>(),
        vec![0, 2, 4, 6]
    );
    assert_eq!(
        result
            .errors
            .iter()
            .map(|error| (error.line, error.column))
            .collect::<Vec<_>>(),
        vec![(1, 1), (1, 3), (1, 5), (1, 7)]
    );
    assert!(matches!(
        result.errors[0].error_type,
        LexerErrorType::IncompleteAssignment
    ));
    assert!(matches!(result.errors[1].error_type, LexerErrorType::IncompleteOr));
    assert!(matches!(result.errors[2].error_type, LexerErrorType::IncompleteAnd));
    assert!(matches!(
        result.errors[3].error_type,
        LexerErrorType::IncompleteEqual
    ));
}

#[test]
fn reports_unexpected_tokens_and_continues_lexing() {
    let result = Lexer::new("@ print".to_string()).tokenise();

    assert_eq!(result.errors.len(), 1);
    assert_eq!(result.errors[0].index, 0);
    assert_eq!((result.errors[0].line, result.errors[0].column), (1, 1));
    assert!(matches!(
        result.errors[0].error_type,
        LexerErrorType::UnexpectedToken { ref lexeme } if lexeme == "@"
    ));
    assert_eq!(
        result
            .tokens
            .into_iter()
            .map(|token| token.token_type)
            .collect::<Vec<_>>(),
        vec![TokenType::Print, TokenType::EOF]
    );
}

#[test]
fn reports_error_indices_as_character_offsets() {
    let result = errors("abc @");

    assert_eq!(result.len(), 1);
    assert_eq!(result[0].index, 4);
    assert_eq!(result[0].line, 1);
    assert_eq!(result[0].column, 5);
    assert!(matches!(
        result[0].error_type,
        LexerErrorType::UnexpectedToken { ref lexeme } if lexeme == "@"
    ));
}

#[test]
fn records_token_line_and_column_positions() {
    assert_eq!(
        positions("print 7;\nreturn false;"),
        vec![(1, 1), (1, 7), (1, 8), (2, 1), (2, 8), (2, 13), (2, 14)]
    );
}

#[test]
fn counts_positions_in_characters_not_bytes() {
    let result = errors("λ @");
    assert_eq!(result.len(), 2);
    assert_eq!(result[1].index, 2);
    assert_eq!(result[1].column, 3);
}

#[test]
fn integer_literal_at_the_largest_value() {
    assert_eq!(
        token_types("2147483647 007"),
        vec![TokenType::Integer(2147483647), TokenType::Integer(7), TokenType::EOF]
    );
}

#[test]
fn underscore_alone_then_word() {
    assert_eq!(
        token_types("_abc"),
        vec![
            TokenType::Identifier("_".to_string()),
            TokenType::Identifier("abc".to_string()),
            TokenType::EOF
        ]
    );
}
