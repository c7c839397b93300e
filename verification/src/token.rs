//! The lexical vocabulary: token kinds and tokens.

use vstd::prelude::*;

verus! {

/// The kind of a lexical token.
#[derive(Debug, Clone, Copy, PartialEq, Eq, Structural)]
pub enum TokenType {
    Number,
    Plus,
    Minus,
    Star,
    Modulo,
    Slash,
    LParen,
    RParen,
    LBrace,
    RBrace,
    Comma,
    String,
    Equal,
    EqualEqual,
    Greater,
    GreaterEqual,
    Less,
    LessEqual,
    Bang,
    BangEqual,
    Ampersand,
    Pipe,
    Let,
    Print,
    If,
    Else,
    Input,
    Int,
    Ident,
    True,
    False,
    While,
    Break,
    Continue,
    Fn,
    Return,
    EOL,
    EOF,
}

/// Mathematical image of a token: its kind, its text, and its 1-based line.
pub ghost struct TokenG {
    pub kind: TokenType,
    pub lexeme: Seq<char>,
    pub line: nat,
}

/// A token as produced by the lexer. Immutable once produced.
#[derive(Debug, Clone)]
pub struct Token {
    pub token_type: TokenType,
    pub lexeme: Vec<char>,
    pub line: usize,
}

impl View for Token {
    type V = TokenG;

    open spec fn view(&self) -> TokenG {
        TokenG { kind: self.token_type, lexeme: self.lexeme@, line: self.line as nat }
    }
}

impl Token {
    pub fn new(s: Vec<char>, line: usize, token_type: TokenType) -> (t: Token)
        ensures
            t@ == (TokenG { kind: token_type, lexeme: s@, line: line as nat }),
    {
        Token { token_type, lexeme: s, line }
    }
}

} // verus!
