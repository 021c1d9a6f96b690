//! Lexical token categories and the token record handed from the scanner to
//! the parser.

use vstd::prelude::*;

verus! {

/// Every lexical category the scanner can produce. `Error` carries a
/// diagnostic message as its lexeme; `Eof` repeats forever at end of input;
/// `Init` is the resting state of a parser that has not pulled a token yet.
#[derive(Debug, PartialEq, Eq, Structural, Ord, PartialOrd, Hash, Copy, Clone)]
pub enum TokenType {
    // Single-character tokens.
    LeftParen,
    RightParen,
    LeftBrace,
    RightBrace,
    Comma,
    Dot,
    Minus,
    Plus,
    Semicolon,
    Slash,
    Star,
    // One or two character tokens.
    Bang,
    BangEqual,
    Equal,
    EqualEqual,
    Greater,
    GreaterEqual,
    Less,
    LessEqual,
    // Literals.
    Identifier,
    String,
    Number,
    // Keywords.
    And,
    Class,
    Else,
    False,
    For,
    Fun,
    If,
    Nil,
    Or,
    Print,
    Return,
    Super,
    This,
    True,
    Var,
    While,

    Error,
    Eof,
    Init,
}

/// One token: its category, the character offset at which its lexeme starts,
/// the lexeme itself (for `Error` tokens, the diagnostic message), and the
/// source line the scanner was on when the token was finished.
#[derive(Copy, Clone)]
pub struct Token<'a> {
    pub kind: TokenType,
    pub start: usize,
    pub src: &'a str,
    pub line: usize,
}

impl<'a> Token<'a> {
    pub fn new(kind: TokenType, start: usize, src: &'a str, line: usize) -> (t: Token<'a>)
        ensures
            t.kind == kind,
            t.start == start,
            t.src == src,
            t.line == line,
    {
        Token { kind, start, src, line }
    }
}

impl Default for Token<'static> {
    /// The resting token a parser starts from, before any call to the scanner.
    fn default() -> (t: Token<'static>)
        ensures
            t.kind == TokenType::Init,
            t.start == 0,
            t.src@ == Seq::<char>::empty(),
            t.line == 0,
    {
        proof {
            reveal_strlit("");
        }
        Token { kind: TokenType::Init, start: 0, src: "", line: 0 }
    }
}

} // verus!
