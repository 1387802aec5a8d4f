use vstd::prelude::*;
use crate::token_kind::TokenKind;

verus! {

/// One flat enumeration shared by tokens and parse-tree nodes.
///
/// The order is fixed: `kind_index` maps each kind to a dense small integer
/// so a kind can serve as a bit index and as the raw tag handed to the
/// external tree service.  `Eof` is the out-of-bounds lookahead sentinel and
/// `Tombstone` marks a started node that was abandoned or relocated and must
/// be skipped during linearization.
#[derive(Debug, Copy, Clone, PartialEq, Eq, Structural)]
pub enum SyntaxKind {
    Ident,
    String,
    Integer,
    DefKw,
    LetKw,
    TrueKw,
    FalseKw,
    OpenParen,
    CloseParen,
    OpenBrace,
    CloseBrace,
    LessThan,
    GreaterThan,
    Plus,
    Minus,
    Star,
    Slash,
    Percent,
    And,
    Or,
    Xor,
    Arrow,
    Colon,
    Semicolon,
    Comma,
    Dot,
    Equals,
    Exclamation,
    Whitespace,
    LineComment,
    BlockComment,
    Error,
    Eof,
    Tombstone,
    LazyAnd,
    LazyOr,
    EqualTo,
    NotEqual,
    LessThanEquals,
    GreaterThanEquals,
    LeftShift,
    RightShift,
    UnsignedRightShift,
    Root,
    Literal,
    NameRef,
    ParenExpr,
    BinaryExpr,
    PrefixExpr,
    DefItem,
    ParamList,
    Param,
    Block,
    LetStmt,
    NameType,
}

/// Number of syntax kinds; every kind index is below this bound.
pub const KIND_COUNT: u16 = 55;

/// The dense integer assigned to each kind, in declaration order.
pub open spec fn kind_index(k: SyntaxKind) -> int {
    match k {
        SyntaxKind::Ident => 0,
        SyntaxKind::String => 1,
        SyntaxKind::Integer => 2,
        SyntaxKind::DefKw => 3,
        SyntaxKind::LetKw => 4,
        SyntaxKind::TrueKw => 5,
        SyntaxKind::FalseKw => 6,
        SyntaxKind::OpenParen => 7,
        SyntaxKind::CloseParen => 8,
        SyntaxKind::OpenBrace => 9,
        SyntaxKind::CloseBrace => 10,
        SyntaxKind::LessThan => 11,
        SyntaxKind::GreaterThan => 12,
        SyntaxKind::Plus => 13,
        SyntaxKind::Minus => 14,
        SyntaxKind::Star => 15,
        SyntaxKind::Slash => 16,
        SyntaxKind::Percent => 17,
        SyntaxKind::And => 18,
        SyntaxKind::Or => 19,
        SyntaxKind::Xor => 20,
        SyntaxKind::Arrow => 21,
        SyntaxKind::Colon => 22,
        SyntaxKind::Semicolon => 23,
        SyntaxKind::Comma => 24,
        SyntaxKind::Dot => 25,
        SyntaxKind::Equals => 26,
        SyntaxKind::Exclamation => 27,
        SyntaxKind::Whitespace => 28,
        SyntaxKind::LineComment => 29,
        SyntaxKind::BlockComment => 30,
        SyntaxKind::Error => 31,
        SyntaxKind::Eof => 32,
        SyntaxKind::Tombstone => 33,
        SyntaxKind::LazyAnd => 34,
        SyntaxKind::LazyOr => 35,
        SyntaxKind::EqualTo => 36,
        SyntaxKind::NotEqual => 37,
        SyntaxKind::LessThanEquals => 38,
        SyntaxKind::GreaterThanEquals => 39,
        SyntaxKind::LeftShift => 40,
        SyntaxKind::RightShift => 41,
        SyntaxKind::UnsignedRightShift => 42,
        SyntaxKind::Root => 43,
        SyntaxKind::Literal => 44,
        SyntaxKind::NameRef => 45,
        SyntaxKind::ParenExpr => 46,
        SyntaxKind::BinaryExpr => 47,
        SyntaxKind::PrefixExpr => 48,
        SyntaxKind::DefItem => 49,
        SyntaxKind::ParamList => 50,
        SyntaxKind::Param => 51,
        SyntaxKind::Block => 52,
        SyntaxKind::LetStmt => 53,
        SyntaxKind::NameType => 54,
    }
}

/// Inverse of `kind_index` on the valid range; `Eof` elsewhere.
pub open spec fn kind_from_index(i: int) -> SyntaxKind {
    if i == 0 { SyntaxKind::Ident }
    else if i == 1 { SyntaxKind::String }
    else if i == 2 { SyntaxKind::Integer }
    else if i == 3 { SyntaxKind::DefKw }
    else if i == 4 { SyntaxKind::LetKw }
    else if i == 5 { SyntaxKind::TrueKw }
    else if i == 6 { SyntaxKind::FalseKw }
    else if i == 7 { SyntaxKind::OpenParen }
    else if i == 8 { SyntaxKind::CloseParen }
    else if i == 9 { SyntaxKind::OpenBrace }
    else if i == 10 { SyntaxKind::CloseBrace }
    else if i == 11 { SyntaxKind::LessThan }
    else if i == 12 { SyntaxKind::GreaterThan }
    else if i == 13 { SyntaxKind::Plus }
    else if i == 14 { SyntaxKind::Minus }
    else if i == 15 { SyntaxKind::Star }
    else if i == 16 { SyntaxKind::Slash }
    else if i == 17 { SyntaxKind::Percent }
    else if i == 18 { SyntaxKind::And }
    else if i == 19 { SyntaxKind::Or }
    else if i == 20 { SyntaxKind::Xor }
    else if i == 21 { SyntaxKind::Arrow }
    else if i == 22 { SyntaxKind::Colon }
    else if i == 23 { SyntaxKind::Semicolon }
    else if i == 24 { SyntaxKind::Comma }
    else if i == 25 { SyntaxKind::Dot }
    else if i == 26 { SyntaxKind::Equals }
    else if i == 27 { SyntaxKind::Exclamation }
    else if i == 28 { SyntaxKind::Whitespace }
    else if i == 29 { SyntaxKind::LineComment }
    else if i == 30 { SyntaxKind::BlockComment }
    else if i == 31 { SyntaxKind::Error }
    else if i == 32 { SyntaxKind::Eof }
    else if i == 33 { SyntaxKind::Tombstone }
    else if i == 34 { SyntaxKind::LazyAnd }
    else if i == 35 { SyntaxKind::LazyOr }
    else if i == 36 { SyntaxKind::EqualTo }
    else if i == 37 { SyntaxKind::NotEqual }
    else if i == 38 { SyntaxKind::LessThanEquals }
    else if i == 39 { SyntaxKind::GreaterThanEquals }
    else if i == 40 { SyntaxKind::LeftShift }
    else if i == 41 { SyntaxKind::RightShift }
    else if i == 42 { SyntaxKind::UnsignedRightShift }
    else if i == 43 { SyntaxKind::Root }
    else if i == 44 { SyntaxKind::Literal }
    else if i == 45 { SyntaxKind::NameRef }
    else if i == 46 { SyntaxKind::ParenExpr }
    else if i == 47 { SyntaxKind::BinaryExpr }
    else if i == 48 { SyntaxKind::PrefixExpr }
    else if i == 49 { SyntaxKind::DefItem }
    else if i == 50 { SyntaxKind::ParamList }
    else if i == 51 { SyntaxKind::Param }
    else if i == 52 { SyntaxKind::Block }
    else if i == 53 { SyntaxKind::LetStmt }
    else if i == 54 { SyntaxKind::NameType }
    else { SyntaxKind::Eof }
}

/// The dense mapping is a bijection onto `0 .. KIND_COUNT`.
pub proof fn lemma_kind_index_bijective(k: SyntaxKind)
    ensures
        0 <= kind_index(k) < KIND_COUNT,
        kind_from_index(kind_index(k)) == k,
{
}

/// Two distinct kinds never share an index.
pub proof fn lemma_kind_index_injective(a: SyntaxKind, b: SyntaxKind)
    requires
        kind_index(a) == kind_index(b),
    ensures
        a == b,
{
    lemma_kind_index_bijective(a);
    lemma_kind_index_bijective(b);
}

/// The node-level kind a scanned token maps to: the flags a `TokenKind`
/// carries are dropped, everything else corresponds one to one.
pub open spec fn syntax_kind_of(t: TokenKind) -> SyntaxKind {
    match t {
        TokenKind::Ident => SyntaxKind::Ident,
        TokenKind::String { .. } => SyntaxKind::String,
        TokenKind::Integer { .. } => SyntaxKind::Integer,
        TokenKind::DefKw => SyntaxKind::DefKw,
        TokenKind::LetKw => SyntaxKind::LetKw,
        TokenKind::TrueKw => SyntaxKind::TrueKw,
        TokenKind::FalseKw => SyntaxKind::FalseKw,
        TokenKind::OpenParen => SyntaxKind::OpenParen,
        TokenKind::CloseParen => SyntaxKind::CloseParen,
        TokenKind::OpenBrace => SyntaxKind::OpenBrace,
        TokenKind::CloseBrace => SyntaxKind::CloseBrace,
        TokenKind::LessThan => SyntaxKind::LessThan,
        TokenKind::GreaterThan => SyntaxKind::GreaterThan,
        TokenKind::Plus => SyntaxKind::Plus,
        TokenKind::Minus => SyntaxKind::Minus,
        TokenKind::Star => SyntaxKind::Star,
        TokenKind::Slash => SyntaxKind::Slash,
        TokenKind::Percent => SyntaxKind::Percent,
        TokenKind::And => SyntaxKind::And,
        TokenKind::Or => SyntaxKind::Or,
        TokenKind::Xor => SyntaxKind::Xor,
        TokenKind::Arrow => SyntaxKind::Arrow,
        TokenKind::Colon => SyntaxKind::Colon,
        TokenKind::Semicolon => SyntaxKind::Semicolon,
        TokenKind::Comma => SyntaxKind::Comma,
        TokenKind::Dot => SyntaxKind::Dot,
        TokenKind::Equals => SyntaxKind::Equals,
        TokenKind::Exclamation => SyntaxKind::Exclamation,
        TokenKind::Whitespace => SyntaxKind::Whitespace,
        TokenKind::BlockComment { .. } => SyntaxKind::BlockComment,
        TokenKind::LineComment => SyntaxKind::LineComment,
        TokenKind::Error => SyntaxKind::Error,
    }
}

impl From<TokenKind> for SyntaxKind {
    fn from(value: TokenKind) -> (r: SyntaxKind)
        ensures
            r == syntax_kind_of(value),
    {
        match value {
            TokenKind::Ident => SyntaxKind::Ident,
            TokenKind::String { .. } => SyntaxKind::String,
            TokenKind::Integer { .. } => SyntaxKind::Integer,
            TokenKind::DefKw => SyntaxKind::DefKw,
            TokenKind::LetKw => SyntaxKind::LetKw,
            TokenKind::TrueKw => SyntaxKind::TrueKw,
            TokenKind::FalseKw => SyntaxKind::FalseKw,
            TokenKind::OpenParen => SyntaxKind::OpenParen,
            TokenKind::CloseParen => SyntaxKind::CloseParen,
            TokenKind::OpenBrace => SyntaxKind::OpenBrace,
            TokenKind::CloseBrace => SyntaxKind::CloseBrace,
            TokenKind::LessThan => SyntaxKind::LessThan,
            TokenKind::GreaterThan => SyntaxKind::GreaterThan,
            TokenKind::Plus => SyntaxKind::Plus,
            TokenKind::Minus => SyntaxKind::Minus,
            TokenKind::Star => SyntaxKind::Star,
            TokenKind::Slash => SyntaxKind::Slash,
            TokenKind::Percent => SyntaxKind::Percent,
            TokenKind::And => SyntaxKind::And,
            TokenKind::Or => SyntaxKind::Or,
            TokenKind::Xor => SyntaxKind::Xor,
            TokenKind::Arrow => SyntaxKind::Arrow,
            TokenKind::Colon => SyntaxKind::Colon,
            TokenKind::Semicolon => SyntaxKind::Semicolon,
            TokenKind::Comma => SyntaxKind::Comma,
            TokenKind::Dot => SyntaxKind::Dot,
            TokenKind::Equals => SyntaxKind::Equals,
            TokenKind::Exclamation => SyntaxKind::Exclamation,
            TokenKind::Whitespace => SyntaxKind::Whitespace,
            TokenKind::BlockComment { .. } => SyntaxKind::BlockComment,
            TokenKind::LineComment => SyntaxKind::LineComment,
            TokenKind::Error => SyntaxKind::Error,
        }
    }
}

impl vstd::std_specs::convert::FromSpecImpl<TokenKind> for SyntaxKind {
    open spec fn obeys_from_spec() -> bool {
        true
    }

    open spec fn from_spec(t: TokenKind) -> SyntaxKind {
        syntax_kind_of(t)
    }
}

/// The kind's name, as diagnostics spell it.
pub fn kind_name(k: SyntaxKind) -> (r: &'static str)
    ensures
        r@ == kind_name_spec(k),
{
    match k {
        SyntaxKind::Ident => "Ident",
        SyntaxKind::String => "String",
        SyntaxKind::Integer => "Integer",
        SyntaxKind::DefKw => "DefKw",
        SyntaxKind::LetKw => "LetKw",
        SyntaxKind::TrueKw => "TrueKw",
        SyntaxKind::FalseKw => "FalseKw",
        SyntaxKind::OpenParen => "OpenParen",
        SyntaxKind::CloseParen => "CloseParen",
        SyntaxKind::OpenBrace => "OpenBrace",
        SyntaxKind::CloseBrace => "CloseBrace",
        SyntaxKind::LessThan => "LessThan",
        SyntaxKind::GreaterThan => "GreaterThan",
        SyntaxKind::Plus => "Plus",
        SyntaxKind::Minus => "Minus",
        SyntaxKind::Star => "Star",
        SyntaxKind::Slash => "Slash",
        SyntaxKind::Percent => "Percent",
        SyntaxKind::And => "And",
        SyntaxKind::Or => "Or",
        SyntaxKind::Xor => "Xor",
        SyntaxKind::Arrow => "Arrow",
        SyntaxKind::Colon => "Colon",
        SyntaxKind::Semicolon => "Semicolon",
        SyntaxKind::Comma => "Comma",
        SyntaxKind::Dot => "Dot",
        SyntaxKind::Equals => "Equals",
        SyntaxKind::Exclamation => "Exclamation",
        SyntaxKind::Whitespace => "Whitespace",
        SyntaxKind::LineComment => "LineComment",
        SyntaxKind::BlockComment => "BlockComment",
        SyntaxKind::Error => "Error",
        SyntaxKind::Eof => "Eof",
        SyntaxKind::Tombstone => "Tombstone",
        SyntaxKind::LazyAnd => "LazyAnd",
        SyntaxKind::LazyOr => "LazyOr",
        SyntaxKind::EqualTo => "EqualTo",
        SyntaxKind::NotEqual => "NotEqual",
        SyntaxKind::LessThanEquals => "LessThanEquals",
        SyntaxKind::GreaterThanEquals => "GreaterThanEquals",
        SyntaxKind::LeftShift => "LeftShift",
        SyntaxKind::RightShift => "RightShift",
        SyntaxKind::UnsignedRightShift => "UnsignedRightShift",
        SyntaxKind::Root => "Root",
        SyntaxKind::Literal => "Literal",
        SyntaxKind::NameRef => "NameRef",
        SyntaxKind::ParenExpr => "ParenExpr",
        SyntaxKind::BinaryExpr => "BinaryExpr",
        SyntaxKind::PrefixExpr => "PrefixExpr",
        SyntaxKind::DefItem => "DefItem",
        SyntaxKind::ParamList => "ParamList",
        SyntaxKind::Param => "Param",
        SyntaxKind::Block => "Block",
        SyntaxKind::LetStmt => "LetStmt",
        SyntaxKind::NameType => "NameType",
    }
}

pub open spec fn kind_name_spec(k: SyntaxKind) -> Seq<char> {
    match k {
        SyntaxKind::Ident => "Ident"@,
        SyntaxKind::String => "String"@,
        SyntaxKind::Integer => "Integer"@,
        SyntaxKind::DefKw => "DefKw"@,
        SyntaxKind::LetKw => "LetKw"@,
        SyntaxKind::TrueKw => "TrueKw"@,
        SyntaxKind::FalseKw => "FalseKw"@,
        SyntaxKind::OpenParen => "OpenParen"@,
        SyntaxKind::CloseParen => "CloseParen"@,
        SyntaxKind::OpenBrace => "OpenBrace"@,
        SyntaxKind::CloseBrace => "CloseBrace"@,
        SyntaxKind::LessThan => "LessThan"@,
        SyntaxKind::GreaterThan => "GreaterThan"@,
        SyntaxKind::Plus => "Plus"@,
        SyntaxKind::Minus => "Minus"@,
        SyntaxKind::Star => "Star"@,
        SyntaxKind::Slash => "Slash"@,
        SyntaxKind::Percent => "Percent"@,
        SyntaxKind::And => "And"@,
        SyntaxKind::Or => "Or"@,
        SyntaxKind::Xor => "Xor"@,
        SyntaxKind::Arrow => "Arrow"@,
        SyntaxKind::Colon => "Colon"@,
        SyntaxKind::Semicolon => "Semicolon"@,
        SyntaxKind::Comma => "Comma"@,
        SyntaxKind::Dot => "Dot"@,
        SyntaxKind::Equals => "Equals"@,
        SyntaxKind::Exclamation => "Exclamation"@,
        SyntaxKind::Whitespace => "Whitespace"@,
        SyntaxKind::LineComment => "LineComment"@,
        SyntaxKind::BlockComment => "BlockComment"@,
        SyntaxKind::Error => "Error"@,
        SyntaxKind::Eof => "Eof"@,
        SyntaxKind::Tombstone => "Tombstone"@,
        SyntaxKind::LazyAnd => "LazyAnd"@,
        SyntaxKind::LazyOr => "LazyOr"@,
        SyntaxKind::EqualTo => "EqualTo"@,
        SyntaxKind::NotEqual => "NotEqual"@,
        SyntaxKind::LessThanEquals => "LessThanEquals"@,
        SyntaxKind::GreaterThanEquals => "GreaterThanEquals"@,
        SyntaxKind::LeftShift => "LeftShift"@,
        SyntaxKind::RightShift => "RightShift"@,
        SyntaxKind::UnsignedRightShift => "UnsignedRightShift"@,
        SyntaxKind::Root => "Root"@,
        SyntaxKind::Literal => "Literal"@,
        SyntaxKind::NameRef => "NameRef"@,
        SyntaxKind::ParenExpr => "ParenExpr"@,
        SyntaxKind::BinaryExpr => "BinaryExpr"@,
        SyntaxKind::PrefixExpr => "PrefixExpr"@,
        SyntaxKind::DefItem => "DefItem"@,
        SyntaxKind::ParamList => "ParamList"@,
        SyntaxKind::Param => "Param"@,
        SyntaxKind::Block => "Block"@,
        SyntaxKind::LetStmt => "LetStmt"@,
        SyntaxKind::NameType => "NameType"@,
    }
}

} // verus!
