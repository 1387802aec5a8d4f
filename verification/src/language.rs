use vstd::prelude::*;
use crate::syntax_kind::{kind_from_index, kind_index, SyntaxKind, KIND_COUNT};

verus! {

/// The language tag: it fixes how `SyntaxKind` is exchanged with the
/// external tree service, which keys nodes by a raw `u16`.
#[derive(Debug, Copy, Clone, PartialEq, Eq, Structural)]
pub struct RueLanguage;

impl RueLanguage {
    /// The dense raw tag of `kind`.
    pub fn kind_to_raw(kind: SyntaxKind) -> (r: u16)
        ensures
            r == kind_index(kind),
            r < KIND_COUNT,
    {
        match kind {
            SyntaxKind::Ident => 0,
            SyntaxKind::String => 1,
            SyntaxKind::Integer => 2,
            SyntaxKind::DefKw => 3,
            SyntaxKind::LetKw => 4,
            SyntaxKind::TrueKw => 5,
            SyntaxKind::FalseKw => 6,
            SyntaxKind::OpenParen => 7,
            SyntaxKind::CloseParen => 8,
            SyntaxKind::OpenBrace => 9,
            SyntaxKind::CloseBrace => 10,
            SyntaxKind::LessThan => 11,
            SyntaxKind::GreaterThan => 12,
            SyntaxKind::Plus => 13,
            SyntaxKind::Minus => 14,
            SyntaxKind::Star => 15,
            SyntaxKind::Slash => 16,
            SyntaxKind::Percent => 17,
            SyntaxKind::And => 18,
            SyntaxKind::Or => 19,
            SyntaxKind::Xor => 20,
            SyntaxKind::Arrow => 21,
            SyntaxKind::Colon => 22,
            SyntaxKind::Semicolon => 23,
            SyntaxKind::Comma => 24,
            SyntaxKind::Dot => 25,
            SyntaxKind::Equals => 26,
            SyntaxKind::Exclamation => 27,
            SyntaxKind::Whitespace => 28,
            SyntaxKind::LineComment => 29,
            SyntaxKind::BlockComment => 30,
            SyntaxKind::Error => 31,
            SyntaxKind::Eof => 32,
            SyntaxKind::Tombstone => 33,
            SyntaxKind::LazyAnd => 34,
            SyntaxKind::LazyOr => 35,
            SyntaxKind::EqualTo => 36,
            SyntaxKind::NotEqual => 37,
            SyntaxKind::LessThanEquals => 38,
            SyntaxKind::GreaterThanEquals => 39,
            SyntaxKind::LeftShift => 40,
            SyntaxKind::RightShift => 41,
            SyntaxKind::UnsignedRightShift => 42,
            SyntaxKind::Root => 43,
            SyntaxKind::Literal => 44,
            SyntaxKind::NameRef => 45,
            SyntaxKind::ParenExpr => 46,
            SyntaxKind::BinaryExpr => 47,
            SyntaxKind::PrefixExpr => 48,
            SyntaxKind::DefItem => 49,
            SyntaxKind::ParamList => 50,
            SyntaxKind::Param => 51,
            SyntaxKind::Block => 52,
            SyntaxKind::LetStmt => 53,
            SyntaxKind::NameType => 54,
        }
    }

    /// The kind whose raw tag is `raw`; only tags below `KIND_COUNT` name one.
    pub fn kind_from_raw(raw: u16) -> (r: SyntaxKind)
        requires
            raw < KIND_COUNT,
        ensures
            r == kind_from_index(raw as int),
            kind_index(r) == raw,
    {
        if raw == 0 { SyntaxKind::Ident }
        else if raw == 1 { SyntaxKind::String }
        else if raw == 2 { SyntaxKind::Integer }
        else if raw == 3 { SyntaxKind::DefKw }
        else if raw == 4 { SyntaxKind::LetKw }
        else if raw == 5 { SyntaxKind::TrueKw }
        else if raw == 6 { SyntaxKind::FalseKw }
        else if raw == 7 { SyntaxKind::OpenParen }
        else if raw == 8 { SyntaxKind::CloseParen }
        else if raw == 9 { SyntaxKind::OpenBrace }
        else if raw == 10 { SyntaxKind::CloseBrace }
        else if raw == 11 { SyntaxKind::LessThan }
        else if raw == 12 { SyntaxKind::GreaterThan }
        else if raw == 13 { SyntaxKind::Plus }
        else if raw == 14 { SyntaxKind::Minus }
        else if raw == 15 { SyntaxKind::Star }
        else if raw == 16 { SyntaxKind::Slash }
        else if raw == 17 { SyntaxKind::Percent }
        else if raw == 18 { SyntaxKind::And }
        else if raw == 19 { SyntaxKind::Or }
        else if raw == 20 { SyntaxKind::Xor }
        else if raw == 21 { SyntaxKind::Arrow }
        else if raw == 22 { SyntaxKind::Colon }
        else if raw == 23 { SyntaxKind::Semicolon }
        else if raw == 24 { SyntaxKind::Comma }
        else if raw == 25 { SyntaxKind::Dot }
        else if raw == 26 { SyntaxKind::Equals }
        else if raw == 27 { SyntaxKind::Exclamation }
        else if raw == 28 { SyntaxKind::Whitespace }
        else if raw == 29 { SyntaxKind::LineComment }
        else if raw == 30 { SyntaxKind::BlockComment }
        else if raw == 31 { SyntaxKind::Error }
        else if raw == 32 { SyntaxKind::Eof }
        else if raw == 33 { SyntaxKind::Tombstone }
        else if raw == 34 { SyntaxKind::LazyAnd }
        else if raw == 35 { SyntaxKind::LazyOr }
        else if raw == 36 { SyntaxKind::EqualTo }
        else if raw == 37 { SyntaxKind::NotEqual }
        else if raw == 38 { SyntaxKind::LessThanEquals }
        else if raw == 39 { SyntaxKind::GreaterThanEquals }
        else if raw == 40 { SyntaxKind::LeftShift }
        else if raw == 41 { SyntaxKind::RightShift }
        else if raw == 42 { SyntaxKind::UnsignedRightShift }
        else if raw == 43 { SyntaxKind::Root }
        else if raw == 44 { SyntaxKind::Literal }
        else if raw == 45 { SyntaxKind::NameRef }
        else if raw == 46 { SyntaxKind::ParenExpr }
        else if raw == 47 { SyntaxKind::BinaryExpr }
        else if raw == 48 { SyntaxKind::PrefixExpr }
        else if raw == 49 { SyntaxKind::DefItem }
        else if raw == 50 { SyntaxKind::ParamList }
        else if raw == 51 { SyntaxKind::Param }
        else if raw == 52 { SyntaxKind::Block }
        else if raw == 53 { SyntaxKind::LetStmt }
        else { SyntaxKind::NameType }
    }
}

} // verus!
