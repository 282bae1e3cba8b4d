use flare::lexer::{LexerError, Tokenizer};
use flare::tokens::{Token, TokenKind};

fn kinds_and_values(tokens: &[Token]) -> Vec<(TokenKind, String)> {
    tokens.iter().map(|t| (t.token_kind, t.token_value.clone())).collect()
}

fn lex(text: &str) -> Result<Vec<Token>, LexerError> {
    Tokenizer::new(text.to_string()).tokenize()
}

#[test]
fn variable_definition_tokens() {
    let tokens = lex("var x: flt = 3.14;").unwrap();
    assert_eq!(
        kinds_and_values(&tokens),
        vec![
            (TokenKind::VAR, "var".to_string()),
            (TokenKind::IDENTIFIER, "x".to_string()),
            (TokenKind::COLON, ":".to_string()),
            (TokenKind::IDENTIFIER, "flt".to_string()),
            (TokenKind::EQUAL, "=".to_string()),
            (TokenKind::FLOAT, "3.14".to_string()),
            (TokenKind::SEMICOLON, ";".to_string()),
            (TokenKind::EOF, "EOF".to_string()),
        ]
    );
}

#[test]
fn macro_call_and_string() {
    let tokens = lex("writeLn!(\"hi there\", 42)").unwrap();
    assert_eq!(
        kinds_and_values(&tokens),
        vec![
            (TokenKind::IDENTIFIER, "writeLn!".to_string()),
            (TokenKind::LEFTPAREN, "(".to_string()),
            (TokenKind::STRING, "hi there".to_string()),
            (TokenKind::COMMA, ",".to_string()),
            (TokenKind::NUMB, "42".to_string()),
            (TokenKind::RIGHTPAREN, ")".to_string()),
            (TokenKind::EOF, "EOF".to_string()),
        ]
    );
}

#[test]
fn keywords_and_operators() {
    let tokens = lex("if else while loop fn const true false undef str my_var\t+-*/%<>{}").unwrap();
    let kinds: Vec<TokenKind> = tokens.iter().map(|t| t.token_kind).collect();
    assert_eq!(
        kinds,
        vec![
            TokenKind::IF,
            TokenKind::ELSE,
            TokenKind::WHILE,
            TokenKind::LOOP,
            TokenKind::FN,
            TokenKind::CONST,
            TokenKind::TRUE,
            TokenKind::FALSE,
            TokenKind::UNDEF,
            TokenKind::STR,
            TokenKind::IDENTIFIER,
            TokenKind::PLUS,
            TokenKind::MINUS,
            TokenKind::TIMES,
            TokenKind::DIVIDE,
            TokenKind::MODULO,
            TokenKind::LESS,
            TokenKind::GREATER,
            TokenKind::OPENINGBRACE,
            TokenKind::CLOSINGBRACE,
            TokenKind::EOF,
        ]
    );
}

#[test]
fn number_followed_by_word() {
    let tokens = lex("12ab").unwrap();
    assert_eq!(
        kinds_and_values(&tokens),
        vec![
            (TokenKind::NUMB, "12".to_string()),
            (TokenKind::IDENTIFIER, "ab".to_string()),
            (TokenKind::EOF, "EOF".to_string()),
        ]
    );
}

#[test]
fn lexer_errors() {
    assert!(matches!(lex(""), Err(LexerError::EmptyFile)));
    assert!(matches!(lex("1.2.3"), Err(LexerError::MoreDotInANumber)));
    assert!(matches!(lex("x = #"), Err(LexerError::UnknownToken { ref wrong_token }) if wrong_token == "#"));
    assert!(matches!(lex("\"abc"), Err(LexerError::UnterminatedString { ref text }) if text == "abc"));
}

#[test]
fn nul_ends_the_input() {
    let tokens = lex("a\0b").unwrap();
    assert_eq!(
        kinds_and_values(&tokens),
        vec![(TokenKind::IDENTIFIER, "a".to_string()), (TokenKind::EOF, "EOF".to_string())]
    );
}

#[test]
fn unicode_letters_form_words() {
    let tokens = lex("größe").unwrap();
    assert_eq!(kinds_and_values(&tokens)[0], (TokenKind::IDENTIFIER, "größe".to_string()));
}
