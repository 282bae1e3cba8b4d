//! Tokens as the parser hands them over: a kind and the text they were read from.
use vstd::prelude::*;

verus! {

#[allow(non_camel_case_types)]
#[derive(Debug, Clone, Copy, PartialEq, Eq, Structural)]
pub enum TokenKind {
    PLUS,
    MINUS,
    TIMES,
    DIVIDE,
    LEFTPAREN,
    RIGHTPAREN,
    OPENINGBRACE,
    CLOSINGBRACE,
    EQUAL,
    MODULO,
    GREATER,
    LESS,
    NUMB,
    FLOAT,
    STRING,
    IDENTIFIER,
    COMMA,
    COLON,
    SEMICOLON,
    TRUE,
    FALSE,
    FN,
    VAR,
    CONST,
    STR,
    IF,
    ELSE,
    LOOP,
    WHILE,
    UNDEF,
    AS,
    EOF,
    VALUE,
}

#[derive(Debug, Clone)]
pub struct Token {
    pub token_kind: TokenKind,
    pub token_value: String,
}

} // verus!
