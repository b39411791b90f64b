//! Tokens produced by the scanner.

use vstd::prelude::*;

verus! {

/// The kinds of token that the scanner recognises.
#[derive(Clone, Copy, Debug, PartialEq, Eq, Structural)]
pub enum TokenType {
    // Single character tokens.
    LeftParen,
    RightParen,
    LeftBrace,
    RightBrace,
    Comma,
    Dot,
    Minus,
    Plus,
    Semicolon,
    Slash,
    Star,
    // One or two character tokens.
    Bang,
    BangEqual,
    Equal,
    EqualEqual,
    Greater,
    GreaterEqual,
    Less,
    LessEqual,
    // Literals.
    Identifier,
    String,
    Number,
    // Keywords.
    And,
    Class,
    Else,
    False,
    For,
    Fun,
    If,
    Nil,
    Or,
    Print,
    Return,
    Super,
    This,
    True,
    Var,
    While,
    // Other.
    Error,
    EoF,
}

/// A token: its kind, the line on which it ends, and its text.
///
/// For an `Error` token the text is the error message; for every other
/// token it is the slice of the source that the token covers.
pub struct Token {
    pub kind: TokenType,
    pub line: u32,
    pub lexeme: Vec<u8>,
}

impl Token {
    pub fn new(kind: TokenType, line: u32, lexeme: Vec<u8>) -> (token: Token)
        ensures
            token.kind == kind,
            token.line == line,
            token.lexeme@ == lexeme@,
    {
        Token { kind, line, lexeme }
    }

    /// The placeholder token that a parser holds before it has read anything.
    pub fn null() -> (token: Token)
        ensures
            token.kind == TokenType::Error,
            token.line == 0,
            token.lexeme@ == Seq::<u8>::empty(),
    {
        Token { kind: TokenType::Error, line: 0, lexeme: Vec::new() }
    }

    /// A copy of this token.
    pub fn duplicate(&self) -> (token: Token)
        ensures
            token.kind == self.kind,
            token.line == self.line,
            token.lexeme@ == self.lexeme@,
    {
        Token { kind: self.kind, line: self.line, lexeme: copy_bytes(&self.lexeme) }
    }
}

/// A copy of a byte vector.
pub fn copy_bytes(bytes: &Vec<u8>) -> (copy: Vec<u8>)
    ensures
        copy@ == bytes@,
{
    let mut copy: Vec<u8> = Vec::with_capacity(bytes.len());
    let mut i: usize = 0;
    while i < bytes.len()
        invariant
            i <= bytes.len(),
            copy@ == bytes@.subrange(0, i as int),
        decreases bytes.len() - i,
    {
        copy.push(bytes[i]);
        i += 1;
    }
    copy
}

} // verus!
