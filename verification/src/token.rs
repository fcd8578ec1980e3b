//! Tokens: what the lexer hands the parser.

use vstd::prelude::*;

verus! {

/// The kind of a token: keywords, literals, operators, punctuation, the
/// end of input, and anything the lexer does not recognise.
#[derive(Debug, PartialEq)]
pub enum TokenType {
    Let,
    Const,
    Function,
    Return,
    If,
    Else,
    While,
    For,
    Identifier(Vec<char>),
    /// A numeric literal, as the encoding of an IEEE-754 double.
    Number(u64),
    Str(Vec<char>),
    Plus,
    Minus,
    Star,
    Slash,
    Assign,
    Equal,
    NotEqual,
    LessThan,
    GreaterThan,
    LParen,
    RParen,
    LBrace,
    RBrace,
    LBracket,
    RBracket,
    Colon,
    SemiColon,
    Comma,
    Dot,
    EOF,
    Illegal,
}

/// One token, with the text it came from and where it started.
#[derive(Debug, PartialEq)]
pub struct Token {
    pub token_type: TokenType,
    pub literal: Vec<char>,
    pub line: usize,
    pub column: usize,
}

impl Token {
    pub fn new(token_type: TokenType, literal: Vec<char>, line: usize, column: usize) -> (t: Self)
        ensures
            t.token_type == token_type,
            t.literal == literal,
            t.line == line,
            t.column == column,
    {
        Self { token_type, literal, line, column }
    }
}

} // verus!
