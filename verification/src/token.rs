use vstd::prelude::*;
use crate::token_kind::TokenKind;

verus! {

/// A half-open byte range `[start, end)` into the source text.
#[derive(Debug, Copy, Clone, PartialEq, Eq, Structural)]
pub struct Span {
    pub start: usize,
    pub end: usize,
}

impl Span {
    pub fn new(start: usize, end: usize) -> (r: Span)
        ensures
            r.start == start,
            r.end == end,
    {
        Span { start, end }
    }

    /// The empty span at offset zero, used for end-of-input diagnostics.
    pub fn empty() -> (r: Span)
        ensures
            r.start == 0,
            r.end == 0,
    {
        Span { start: 0, end: 0 }
    }
}

/// The raw kind sequence of a token sequence.
pub open spec fn rk(toks: Seq<Token>) -> Seq<TokenKind> {
    toks.map_values(|t: Token| t.kind)
}

/// One scanned token: its classification, its exact slice of the source,
/// and the byte range that slice occupies.  Immutable once produced.
#[derive(Debug, Copy, Clone)]
pub struct Token<'a> {
    pub text: &'a str,
    pub kind: TokenKind,
    pub span: Span,
}

} // verus!
