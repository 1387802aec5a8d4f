use vstd::prelude::*;

verus! {

/// Numeric base of an integer literal, recorded by the scanner from the
/// `0b` / `0o` / `0x` prefix (or its absence).
#[derive(Debug, Copy, Clone, PartialEq, Eq, Structural)]
pub enum Base {
    Binary,
    Octal,
    Decimal,
    Hexadecimal,
}

impl Base {
    /// The radix this base stands for.
    pub fn radix(self) -> (r: u32)
        ensures
            r == self.radix_spec(),
    {
        match self {
            Base::Binary => 2,
            Base::Octal => 8,
            Base::Decimal => 10,
            Base::Hexadecimal => 16,
        }
    }

    pub open spec fn radix_spec(self) -> u32 {
        match self {
            Base::Binary => 2,
            Base::Octal => 8,
            Base::Decimal => 10,
            Base::Hexadecimal => 16,
        }
    }
}

/// Lexical classification of a token produced by the scanner.
///
/// Malformed input never aborts scanning: an unterminated string or block
/// comment and a base prefix without digits are recorded in the variant's
/// flags, and a character that starts no token at all yields `Error`.
#[derive(Debug, Copy, Clone, PartialEq, Eq, Structural)]
pub enum TokenKind {
    Ident,
    String { is_terminated: bool },
    Integer { base: Base, is_empty: bool },
    DefKw,
    LetKw,
    TrueKw,
    FalseKw,
    OpenParen,
    CloseParen,
    OpenBrace,
    CloseBrace,
    LessThan,
    GreaterThan,
    Plus,
    Minus,
    Star,
    Slash,
    Percent,
    And,
    Or,
    Xor,
    Arrow,
    Colon,
    Semicolon,
    Comma,
    Dot,
    Equals,
    Exclamation,
    Whitespace,
    BlockComment { is_terminated: bool },
    LineComment,
    Error,
}

impl TokenKind {
    /// Whitespace and comments are trivia: they are kept for lossless tree
    /// reconstruction but are invisible to grammar lookahead.
    pub fn is_trivia(self) -> (r: bool)
        ensures
            r == self.is_trivia_spec(),
    {
        matches!(self, TokenKind::Whitespace | TokenKind::BlockComment { .. } | TokenKind::LineComment)
    }

    pub open spec fn is_trivia_spec(self) -> bool {
        self is Whitespace || self is BlockComment || self is LineComment
    }
}

} // verus!
