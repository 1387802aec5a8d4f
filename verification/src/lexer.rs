use vstd::prelude::*;
use vstd::string::StrSliceExecFns;
use vstd::utf8::{encode_scalar, encode_utf8};
use crate::chars::{
    ident_continue_spec, ident_start_spec, is_ident_continue, is_ident_start, is_whitespace,
    is_whitespace_spec,
};
use crate::token::{Span, Token};
use crate::token_kind::{Base, TokenKind};

verus! {

/// A decimal digit.
pub open spec fn is_digit_spec(c: char) -> bool {
    '0' <= c <= '9'
}

/// A hexadecimal digit.
pub open spec fn is_hex_digit_spec(c: char) -> bool {
    is_digit_spec(c) || ('a' <= c <= 'f') || ('A' <= c <= 'F')
}

/// Byte offset of character position `i`: the UTF-8 length of the prefix.
pub open spec fn byte_pos_spec(s: Seq<char>, i: int) -> int {
    encode_utf8(s.subrange(0, i)).len() as int
}

/// `encode_utf8` distributes over concatenation.
pub proof fn lemma_encode_utf8_concat(a: Seq<char>, b: Seq<char>)
    ensures
        encode_utf8(a + b) == encode_utf8(a) + encode_utf8(b),
    decreases a.len(),
{
    if a.len() == 0 {
        assert(a + b =~= b);
        assert(encode_utf8(a) + encode_utf8(b) =~= encode_utf8(b));
    } else {
        assert((a + b).len() > 0);
        assert((a + b)[0] == a[0]);
        assert((a + b).drop_first() =~= a.drop_first() + b);
        lemma_encode_utf8_concat(a.drop_first(), b);
        assert(encode_scalar(a[0] as u32) + (encode_utf8(a.drop_first()) + encode_utf8(b)) =~= (
        encode_scalar(a[0] as u32) + encode_utf8(a.drop_first())) + encode_utf8(b));
    }
}

/// Stepping one character forward adds that character's UTF-8 width.
pub proof fn lemma_byte_pos_step(s: Seq<char>, i: int)
    requires
        0 <= i < s.len(),
    ensures
        byte_pos_spec(s, i + 1) == byte_pos_spec(s, i) + encode_scalar(s[i] as u32).len(),
{
    assert(s.subrange(0, i + 1) =~= s.subrange(0, i) + seq![s[i]]);
    lemma_encode_utf8_concat(s.subrange(0, i), seq![s[i]]);
    assert(seq![s[i]].drop_first() =~= Seq::<char>::empty());
    assert(encode_utf8(Seq::<char>::empty()) =~= Seq::<u8>::empty());
    assert(encode_utf8(seq![s[i]]) == encode_scalar(seq![s[i]][0] as u32) + encode_utf8(
        seq![s[i]].drop_first(),
    ));
    assert(encode_scalar(s[i] as u32) + Seq::<u8>::empty() =~= encode_scalar(s[i] as u32));
}

/// Byte offsets are monotone in the character position.
pub proof fn lemma_byte_pos_monotone(s: Seq<char>, i: int, j: int)
    requires
        0 <= i <= j <= s.len(),
    ensures
        byte_pos_spec(s, i) <= byte_pos_spec(s, j),
    decreases j - i,
{
    if i < j {
        lemma_byte_pos_step(s, j - 1);
        lemma_byte_pos_monotone(s, i, j - 1);
    }
}

/// End of a whitespace run that continues at `i`.
pub open spec fn ws_end(s: Seq<char>, i: int) -> int
    decreases s.len() - i,
    when 0 <= i <= s.len()
{
    if i < s.len() && is_whitespace_spec(s[i]) {
        ws_end(s, i + 1)
    } else {
        i
    }
}

pub proof fn lemma_ws_end_bounds(s: Seq<char>, i: int)
    requires
        0 <= i <= s.len(),
    ensures
        i <= ws_end(s, i) <= s.len(),
    decreases s.len() - i,
{
    if i < s.len() && is_whitespace_spec(s[i]) {
        lemma_ws_end_bounds(s, i + 1);
    }
}

/// End of an identifier whose continuation characters start at `i`.
pub open spec fn ident_end(s: Seq<char>, i: int) -> int
    decreases s.len() - i,
    when 0 <= i <= s.len()
{
    if i < s.len() && ident_continue_spec(s[i]) {
        ident_end(s, i + 1)
    } else {
        i
    }
}

pub proof fn lemma_ident_end_bounds(s: Seq<char>, i: int)
    requires
        0 <= i <= s.len(),
    ensures
        i <= ident_end(s, i) <= s.len(),
    decreases s.len() - i,
{
    if i < s.len() && ident_continue_spec(s[i]) {
        lemma_ident_end_bounds(s, i + 1);
    }
}

/// End of a run of decimal digits and underscores starting at `i`.
pub open spec fn decimal_end(s: Seq<char>, i: int) -> int
    decreases s.len() - i,
    when 0 <= i <= s.len()
{
    if i < s.len() && (s[i] == '_' || is_digit_spec(s[i])) {
        decimal_end(s, i + 1)
    } else {
        i
    }
}

pub proof fn lemma_decimal_end_bounds(s: Seq<char>, i: int)
    requires
        0 <= i <= s.len(),
    ensures
        i <= decimal_end(s, i) <= s.len(),
    decreases s.len() - i,
{
    if i < s.len() && (s[i] == '_' || is_digit_spec(s[i])) {
        lemma_decimal_end_bounds(s, i + 1);
    }
}

/// End of a run of hexadecimal digits and underscores starting at `i`.
pub open spec fn hex_end(s: Seq<char>, i: int) -> int
    decreases s.len() - i,
    when 0 <= i <= s.len()
{
    if i < s.len() && (s[i] == '_' || is_hex_digit_spec(s[i])) {
        hex_end(s, i + 1)
    } else {
        i
    }
}

pub proof fn lemma_hex_end_bounds(s: Seq<char>, i: int)
    requires
        0 <= i <= s.len(),
    ensures
        i <= hex_end(s, i) <= s.len(),
    decreases s.len() - i,
{
    if i < s.len() && (s[i] == '_' || is_hex_digit_spec(s[i])) {
        lemma_hex_end_bounds(s, i + 1);
    }
}

/// Whether the digit run `[i, decimal_end)` holds at least one digit.
pub open spec fn decimal_has_digits(s: Seq<char>, i: int) -> bool {
    exists|j: int| i <= j < decimal_end(s, i) && is_digit_spec(s[j])
}

/// Whether the digit run `[i, hex_end)` holds at least one hexadecimal digit.
pub open spec fn hex_has_digits(s: Seq<char>, i: int) -> bool {
    exists|j: int| i <= j < hex_end(s, i) && is_hex_digit_spec(s[j])
}

/// End of a line comment whose body starts at `i`: everything up to a
/// newline or a NUL, neither consumed.
pub open spec fn line_comment_end(s: Seq<char>, i: int) -> int
    decreases s.len() - i,
    when 0 <= i <= s.len()
{
    if i < s.len() && s[i] != '\n' && s[i] != '\u{0}' {
        line_comment_end(s, i + 1)
    } else {
        i
    }
}

pub proof fn lemma_line_comment_end_bounds(s: Seq<char>, i: int)
    requires
        0 <= i <= s.len(),
    ensures
        i <= line_comment_end(s, i) <= s.len(),
    decreases s.len() - i,
{
    if i < s.len() && s[i] != '\n' && s[i] != '\u{0}' {
        lemma_line_comment_end_bounds(s, i + 1);
    }
}

/// Scan of a string literal body starting at `i`: ends after the closing
/// quote (terminated), or after a NUL, or at end of input (unterminated).
pub open spec fn string_scan(s: Seq<char>, i: int, quote: char) -> (bool, int)
    decreases s.len() - i,
    when 0 <= i <= s.len()
{
    if i >= s.len() {
        (false, i)
    } else if s[i] == '\u{0}' {
        (false, i + 1)
    } else if s[i] == quote {
        (true, i + 1)
    } else {
        string_scan(s, i + 1, quote)
    }
}

pub proof fn lemma_string_scan_bounds(s: Seq<char>, i: int, quote: char)
    requires
        0 <= i <= s.len(),
    ensures
        i <= string_scan(s, i, quote).1 <= s.len(),
    decreases s.len() - i,
{
    if i < s.len() && s[i] != '\u{0}' && s[i] != quote {
        lemma_string_scan_bounds(s, i + 1, quote);
    }
}

/// Scan of a block comment body starting at `i`: ends after a `*/`
/// (terminated), or before a NUL or at end of input (unterminated).
pub open spec fn block_scan(s: Seq<char>, i: int) -> (bool, int)
    decreases s.len() - i,
    when 0 <= i <= s.len()
{
    if i >= s.len() || s[i] == '\u{0}' {
        (false, i)
    } else if s[i] == '*' && i + 1 < s.len() && s[i + 1] == '/' {
        (true, i + 2)
    } else {
        block_scan(s, i + 1)
    }
}

pub proof fn lemma_block_scan_bounds(s: Seq<char>, i: int)
    requires
        0 <= i <= s.len(),
    ensures
        i <= block_scan(s, i).1 <= s.len(),
    decreases s.len() - i,
{
    if !(i >= s.len() || s[i] == '\u{0}') && !(s[i] == '*' && i + 1 < s.len() && s[i + 1] == '/') {
        lemma_block_scan_bounds(s, i + 1);
    }
}

/// Scan of an integer literal whose first digit stands at `start`:
/// the base named by a `0b`/`0o`/`0x` prefix, whether any digits follow,
/// and the end of the token.
pub open spec fn integer_scan(s: Seq<char>, start: int) -> (Base, bool, int) {
    if s[start] == '0' && start + 1 < s.len() && s[start + 1] == 'b' {
        (Base::Binary, decimal_has_digits(s, start + 2), decimal_end(s, start + 2))
    } else if s[start] == '0' && start + 1 < s.len() && s[start + 1] == 'o' {
        (Base::Octal, decimal_has_digits(s, start + 2), decimal_end(s, start + 2))
    } else if s[start] == '0' && start + 1 < s.len() && s[start + 1] == 'x' {
        (Base::Hexadecimal, hex_has_digits(s, start + 2), hex_end(s, start + 2))
    } else {
        (Base::Decimal, true, decimal_end(s, start + 1))
    }
}

/// The kind an identifier's exact text denotes: one of the keywords, or
/// a plain identifier.
pub open spec fn keyword_or_ident(sub: Seq<char>) -> TokenKind {
    if sub == seq!['d', 'e', 'f'] {
        TokenKind::DefKw
    } else if sub == seq!['l', 'e', 't'] {
        TokenKind::LetKw
    } else if sub == seq!['t', 'r', 'u', 'e'] {
        TokenKind::TrueKw
    } else if sub == seq!['f', 'a', 'l', 's', 'e'] {
        TokenKind::FalseKw
    } else {
        TokenKind::Ident
    }
}

/// Classification and end position of the token that starts at `start`.
///
/// This is the scanner's whole contract: depending on the first character a
/// punctuation token, an arrow, a comment, a string, an integer, an
/// identifier or keyword, a whitespace run, or a one-character error token
/// follows.  Scanning never fails: every character opens exactly one token.
pub open spec fn token_at(s: Seq<char>, start: int) -> (TokenKind, int) {
    let c = s[start];
    if c == '(' {
        (TokenKind::OpenParen, start + 1)
    } else if c == ')' {
        (TokenKind::CloseParen, start + 1)
    } else if c == '{' {
        (TokenKind::OpenBrace, start + 1)
    } else if c == '}' {
        (TokenKind::CloseBrace, start + 1)
    } else if c == '<' {
        (TokenKind::LessThan, start + 1)
    } else if c == '>' {
        (TokenKind::GreaterThan, start + 1)
    } else if c == '+' {
        (TokenKind::Plus, start + 1)
    } else if c == '-' {
        if start + 1 < s.len() && s[start + 1] == '>' {
            (TokenKind::Arrow, start + 2)
        } else {
            (TokenKind::Minus, start + 1)
        }
    } else if c == '*' {
        (TokenKind::Star, start + 1)
    } else if c == '/' {
        if start + 1 < s.len() && s[start + 1] == '/' {
            (TokenKind::LineComment, line_comment_end(s, start + 2))
        } else if start + 1 < s.len() && s[start + 1] == '*' {
            let (terminated, end) = block_scan(s, start + 2);
            (TokenKind::BlockComment { is_terminated: terminated }, end)
        } else {
            (TokenKind::Slash, start + 1)
        }
    } else if c == '%' {
        (TokenKind::Percent, start + 1)
    } else if c == '&' {
        (TokenKind::And, start + 1)
    } else if c == '|' {
        (TokenKind::Or, start + 1)
    } else if c == '^' {
        (TokenKind::Xor, start + 1)
    } else if c == ':' {
        (TokenKind::Colon, start + 1)
    } else if c == ';' {
        (TokenKind::Semicolon, start + 1)
    } else if c == ',' {
        (TokenKind::Comma, start + 1)
    } else if c == '.' {
        (TokenKind::Dot, start + 1)
    } else if c == '!' {
        (TokenKind::Exclamation, start + 1)
    } else if c == '=' {
        (TokenKind::Equals, start + 1)
    } else if c == '"' {
        let (terminated, end) = string_scan(s, start + 1, '"');
        (TokenKind::String { is_terminated: terminated }, end)
    } else if c == '\'' {
        let (terminated, end) = string_scan(s, start + 1, '\'');
        (TokenKind::String { is_terminated: terminated }, end)
    } else if is_digit_spec(c) {
        let (base, has_digits, end) = integer_scan(s, start);
        (TokenKind::Integer { base, is_empty: !has_digits }, end)
    } else if ident_start_spec(c) {
        (keyword_or_ident(s.subrange(start, ident_end(s, start + 1))), ident_end(s, start + 1))
    } else if is_whitespace_spec(c) {
        (TokenKind::Whitespace, ws_end(s, start + 1))
    } else {
        (TokenKind::Error, start + 1)
    }
}

/// Every token is non-empty and ends within the input.
pub proof fn lemma_token_at_bounds(s: Seq<char>, start: int)
    requires
        0 <= start < s.len(),
    ensures
        start < token_at(s, start).1 <= s.len(),
{
    let c = s[start];
    lemma_line_comment_end_bounds(s, if start + 2 <= s.len() { start + 2 } else { s.len() as int });
    if c == '/' && start + 1 < s.len() && s[start + 1] == '*' {
        lemma_block_scan_bounds(s, start + 2);
    }
    lemma_string_scan_bounds(s, start + 1, '"');
    lemma_string_scan_bounds(s, start + 1, '\'');
    if start + 2 <= s.len() {
        lemma_decimal_end_bounds(s, start + 2);
        lemma_hex_end_bounds(s, start + 2);
    }
    lemma_decimal_end_bounds(s, start + 1);
    lemma_ident_end_bounds(s, start + 1);
    lemma_ws_end_bounds(s, start + 1);
}

/// Every character encodes to at least one byte.
pub proof fn lemma_encode_utf8_len_lower(s: Seq<char>)
    ensures
        encode_utf8(s).len() >= s.len(),
    decreases s.len(),
{
    if s.len() > 0 {
        lemma_encode_utf8_len_lower(s.drop_first());
    }
}

/// The token sequence of the whole input from position `i` on:
/// kind, start, and end of each token, in order, tiling the input.
pub open spec fn tokens_spec(s: Seq<char>, i: int) -> Seq<(TokenKind, int, int)>
    decreases s.len() - i,
    when 0 <= i <= s.len()
    via tokens_spec_dec
{
    if i >= s.len() {
        Seq::empty()
    } else {
        seq![(token_at(s, i).0, i, token_at(s, i).1)] + tokens_spec(s, token_at(s, i).1)
    }
}

#[via_fn]
proof fn tokens_spec_dec(s: Seq<char>, i: int) {
    if i < s.len() {
        lemma_token_at_bounds(s, i);
    }
}

/// Every entry of the token sequence lies within the input, non-empty.
pub proof fn lemma_tokens_spec_bounds(s: Seq<char>, i: int, j: int)
    requires
        0 <= i <= s.len(),
        0 <= j < tokens_spec(s, i).len(),
    ensures
        i <= tokens_spec(s, i)[j].1 < tokens_spec(s, i)[j].2 <= s.len(),
    decreases s.len() - i,
{
    lemma_token_at_bounds(s, i);
    let e = token_at(s, i).1;
    if j > 0 {
        lemma_tokens_spec_bounds(s, e, j - 1);
        assert(tokens_spec(s, i)[j] == tokens_spec(s, e)[j - 1]);
    }
}

/// The concatenation of the texts of a token sequence, front to back.
pub open spec fn concat_texts(toks: Seq<Token>) -> Seq<char>
    decreases toks.len(),
{
    if toks.len() == 0 {
        Seq::empty()
    } else {
        toks[0].text@ + concat_texts(toks.drop_first())
    }
}

/// Tokens whose texts tile `s` from `i` to the end concatenate back to
/// exactly that suffix: no character of the source is lost or invented.
pub proof fn lemma_tokens_tile(s: Seq<char>, i: int, toks: Seq<Token>)
    requires
        0 <= i <= s.len(),
        toks.len() == tokens_spec(s, i).len(),
        forall|j: int|
            0 <= j < toks.len() ==> (#[trigger] toks[j].text@) == s.subrange(
                tokens_spec(s, i)[j].1,
                tokens_spec(s, i)[j].2,
            ),
    ensures
        concat_texts(toks) == s.subrange(i, s.len() as int),
    decreases s.len() - i,
{
    if i >= s.len() {
        assert(s.subrange(i, s.len() as int) =~= Seq::<char>::empty());
    } else {
        let e = token_at(s, i).1;
        lemma_token_at_bounds(s, i);
        let rest = toks.drop_first();
        assert(tokens_spec(s, i) == seq![(token_at(s, i).0, i, e)] + tokens_spec(s, e));
        assert forall|j: int| 0 <= j < rest.len() implies (#[trigger] rest[j].text@)
            == s.subrange(tokens_spec(s, e)[j].1, tokens_spec(s, e)[j].2) by {
            assert(rest[j] == toks[j + 1]);
            assert(tokens_spec(s, i)[j + 1] == tokens_spec(s, e)[j]);
        }
        lemma_tokens_tile(s, e, rest);
        assert(toks[0].text@ == s.subrange(i, e));
        assert(s.subrange(i, e) + s.subrange(e, s.len() as int) =~= s.subrange(
            i,
            s.len() as int,
        ));
    }
}

/// An error-tolerant scanner over the source text.  It never fails:
/// every character of the input lands in exactly one token.
pub struct Lexer<'a> {
    source: &'a str,
    pos: usize,
    byte_pos: usize,
    char_len: usize,
    byte_len: usize,
}

impl<'a> Lexer<'a> {
    /// The scanner's internal consistency: `pos` is a character index with
    /// `byte_pos` its byte offset, and the cached lengths are the real ones.
    pub closed spec fn wf(self) -> bool {
        &&& self.char_len == self.source@.len()
        &&& self.byte_len == encode_utf8(self.source@).len()
        &&& self.pos <= self.char_len
        &&& self.byte_pos == byte_pos_spec(self.source@, self.pos as int)
    }

    pub closed spec fn src(self) -> Seq<char> {
        self.source@
    }

    pub closed spec fn position(self) -> int {
        self.pos as int
    }

    pub fn new(source: &'a str) -> (r: Lexer<'a>)
        ensures
            r.wf(),
            r.src() == source@,
            r.position() == 0,
    {
        let char_len = source.unicode_len();
        let byte_len = source.as_bytes().len();
        proof {
            assert(source@.subrange(0, 0) =~= Seq::<char>::empty());
        }
        Lexer { source, pos: 0, byte_pos: 0, char_len, byte_len }
    }

    /// Whether any input is left.
    fn has_token(&self) -> (r: bool)
        requires
            self.wf(),
        ensures
            r == (self.position() < self.src().len()),
    {
        self.pos < self.char_len
    }

    /// The next unconsumed character, or NUL at end of input.
    fn char(&self) -> (c: char)
        requires
            self.wf(),
        ensures
            c == if self.position() < self.src().len() {
                self.src()[self.position()]
            } else {
                '\u{0}'
            },
    {
        if self.pos < self.char_len {
            self.source.get_char(self.pos)
        } else {
            '\u{0}'
        }
    }

    /// The character after the next one, or NUL past the end.
    fn char_at_next(&self) -> (c: char)
        requires
            self.wf(),
        ensures
            c == if self.position() + 1 < self.src().len() {
                self.src()[self.position() + 1]
            } else {
                '\u{0}'
            },
    {
        if self.pos < self.char_len && self.pos + 1 < self.char_len {
            self.source.get_char(self.pos + 1)
        } else {
            '\u{0}'
        }
    }

    /// Consume one character; NUL at end of input, which does not advance.
    fn bump(&mut self) -> (c: char)
        requires
            old(self).wf(),
        ensures
            final(self).wf(),
            final(self).src() == old(self).src(),
            old(self).position() < old(self).src().len() ==> c == old(self).src()[old(
                self,
            ).position()] && final(self).position() == old(self).position() + 1,
            old(self).position() >= old(self).src().len() ==> c == '\u{0}' && *final(self) == *old(
                self,
            ),
    {
        if self.pos < self.char_len {
            let c = self.source.get_char(self.pos);
            proof {
                lemma_byte_pos_step(self.source@, self.pos as int);
                lemma_byte_pos_monotone(self.source@, self.pos + 1, self.source@.len() as int);
                assert(self.source@.subrange(0, self.source@.len() as int) =~= self.source@);
            }
            self.byte_pos = self.byte_pos + char_utf8_len(c);
            self.pos = self.pos + 1;
            c
        } else {
            '\u{0}'
        }
    }

    /// Scan the rest of a string literal; the opening quote is consumed.
    fn string(&mut self, quote: char) -> (kind: TokenKind)
        requires
            old(self).wf(),
        ensures
            final(self).wf(),
            final(self).src() == old(self).src(),
            kind == (TokenKind::String {
                is_terminated: string_scan(old(self).src(), old(self).position(), quote).0,
            }),
            final(self).position() == string_scan(old(self).src(), old(self).position(), quote).1,
    {
        let ghost s = self.src();
        let ghost p0 = self.position();
        let mut is_terminated = false;
        loop
            invariant_except_break
                self.wf(),
                self.src() == s,
                0 <= p0 <= self.position() <= s.len(),
                string_scan(s, self.position(), quote) == string_scan(s, p0, quote),
            ensures
                self.wf(),
                self.src() == s,
                (is_terminated, self.position()) == string_scan(s, p0, quote),
            decreases s.len() - self.position(),
        {
            let ghost pre = self.position();
            let c = self.bump();
            if c == '\u{0}' {
                is_terminated = false;
                break;
            } else if c == quote {
                is_terminated = true;
                break;
            }
            proof {
                assert(pre < s.len() && s[pre] != '\u{0}' && s[pre] != quote);
            }
        }
        TokenKind::String { is_terminated }
    }

    /// Scan the rest of an integer literal; `digit` is its consumed first
    /// character.
    fn integer(&mut self, digit: char) -> (kind: TokenKind)
        requires
            old(self).wf(),
            old(self).position() >= 1,
            old(self).src()[old(self).position() - 1] == digit,
        ensures
            final(self).wf(),
            final(self).src() == old(self).src(),
            kind == (TokenKind::Integer {
                base: integer_scan(old(self).src(), old(self).position() - 1).0,
                is_empty: !integer_scan(old(self).src(), old(self).position() - 1).1,
            }),
            final(self).position() == integer_scan(old(self).src(), old(self).position() - 1).2,
    {
        let mut base = Base::Decimal;

        let has_digits = if digit == '0' {
            let c = self.char();
            if c == 'b' {
                base = Base::Binary;
                self.bump();
                self.eat_decimal_digits()
            } else if c == 'o' {
                base = Base::Octal;
                self.bump();
                self.eat_decimal_digits()
            } else if c == 'x' {
                base = Base::Hexadecimal;
                self.bump();
                self.eat_hexadecimal_digits()
            } else {
                self.eat_decimal_digits();
                true
            }
        } else {
            self.eat_decimal_digits();
            true
        };

        TokenKind::Integer { base, is_empty: !has_digits }
    }

    /// Consume decimal digits and underscores; whether a digit was seen.
    fn eat_decimal_digits(&mut self) -> (has_digits: bool)
        requires
            old(self).wf(),
        ensures
            final(self).wf(),
            final(self).src() == old(self).src(),
            final(self).position() == decimal_end(old(self).src(), old(self).position()),
            has_digits == decimal_has_digits(old(self).src(), old(self).position()),
    {
        let ghost s = self.src();
        let ghost p0 = self.position();
        let mut has_digits = false;
        loop
            invariant_except_break
                self.wf(),
                self.src() == s,
                0 <= p0 <= self.position() <= s.len(),
                decimal_end(s, self.position()) == decimal_end(s, p0),
                has_digits == exists|j: int| p0 <= j < self.position() && is_digit_spec(s[j]),
                forall|j: int| p0 <= j < self.position() ==> s[j] == '_' || is_digit_spec(s[j]),
            ensures
                self.wf(),
                self.src() == s,
                self.position() == decimal_end(s, p0),
                has_digits == decimal_has_digits(s, p0),
            decreases s.len() - self.position(),
        {
            let ghost pre = self.position();
            let c = self.char();
            if c == '_' {
                self.bump();
            } else if '0' <= c && c <= '9' {
                has_digits = true;
                self.bump();
                proof {
                    assert(is_digit_spec(s[pre]));
                }
            } else {
                proof {
                    assert(decimal_end(s, pre) == pre);
                    lemma_decimal_end_bounds(s, p0);
                    if has_digits {
                        assert(decimal_has_digits(s, p0));
                    } else {
                        assert forall|j: int| p0 <= j < decimal_end(s, p0) implies !is_digit_spec(
                            s[j],
                        ) by {}
                    }
                }
                break;
            }
        }
        has_digits
    }

    /// Consume hexadecimal digits and underscores; whether a digit was seen.
    fn eat_hexadecimal_digits(&mut self) -> (has_digits: bool)
        requires
            old(self).wf(),
        ensures
            final(self).wf(),
            final(self).src() == old(self).src(),
            final(self).position() == hex_end(old(self).src(), old(self).position()),
            has_digits == hex_has_digits(old(self).src(), old(self).position()),
    {
        let ghost s = self.src();
        let ghost p0 = self.position();
        let mut has_digits = false;
        loop
            invariant_except_break
                self.wf(),
                self.src() == s,
                0 <= p0 <= self.position() <= s.len(),
                hex_end(s, self.position()) == hex_end(s, p0),
                has_digits == exists|j: int| p0 <= j < self.position() && is_hex_digit_spec(s[j]),
                forall|j: int| p0 <= j < self.position() ==> s[j] == '_' || is_hex_digit_spec(s[j]),
            ensures
                self.wf(),
                self.src() == s,
                self.position() == hex_end(s, p0),
                has_digits == hex_has_digits(s, p0),
            decreases s.len() - self.position(),
        {
            let ghost pre = self.position();
            let c = self.char();
            if c == '_' {
                self.bump();
            } else if ('0' <= c && c <= '9') || ('a' <= c && c <= 'f') || ('A' <= c && c <= 'F') {
                has_digits = true;
                self.bump();
                proof {
                    assert(is_hex_digit_spec(s[pre]));
                }
            } else {
                proof {
                    assert(hex_end(s, pre) == pre);
                    lemma_hex_end_bounds(s, p0);
                    if !has_digits {
                        assert forall|j: int| p0 <= j < hex_end(s, p0) implies !is_hex_digit_spec(
                            s[j],
                        ) by {}
                    }
                }
                break;
            }
        }
        has_digits
    }

    /// Scan the rest of an identifier and classify keywords; `start` is the
    /// character position of its consumed first character.
    fn ident(&mut self, start: usize) -> (kind: TokenKind)
        requires
            old(self).wf(),
            start + 1 == old(self).position(),
        ensures
            final(self).wf(),
            final(self).src() == old(self).src(),
            final(self).position() == ident_end(old(self).src(), old(self).position()),
            kind == keyword_or_ident(
                old(self).src().subrange(
                    start as int,
                    ident_end(old(self).src(), old(self).position()),
                ),
            ),
    {
        let ghost s = self.src();
        let ghost p0 = self.position();
        loop
            invariant_except_break
                self.wf(),
                self.src() == s,
                0 <= p0 <= self.position() <= s.len(),
                start + 1 == p0,
                ident_end(s, self.position()) == ident_end(s, p0),
            ensures
                self.wf(),
                self.src() == s,
                start < self.position() <= s.len(),
                self.position() == ident_end(s, p0),
            decreases s.len() - self.position(),
        {
            let c = self.char();
            if self.pos < self.char_len && is_ident_continue(c) {
                self.bump();
            } else {
                proof {
                    assert(ident_end(s, self.position()) == self.position());
                }
                break;
            }
        }
        let end = self.pos;
        self.keyword_kind(start, end)
    }

    /// Compare the identifier text at `[start, end)` against the keywords.
    fn keyword_kind(&self, start: usize, end: usize) -> (kind: TokenKind)
        requires
            self.wf(),
            start <= end <= self.src().len(),
        ensures
            kind == keyword_or_ident(self.src().subrange(start as int, end as int)),
    {
        let ghost sub = self.src().subrange(start as int, end as int);
        let n = end - start;
        if n == 3 && self.source.get_char(start) == 'd' && self.source.get_char(start + 1) == 'e'
            && self.source.get_char(start + 2) == 'f' {
            proof {
                assert(sub =~= seq!['d', 'e', 'f']);
            }
            TokenKind::DefKw
        } else if n == 3 && self.source.get_char(start) == 'l' && self.source.get_char(start + 1)
            == 'e' && self.source.get_char(start + 2) == 't' {
            proof {
                assert(sub =~= seq!['l', 'e', 't']);
            }
            TokenKind::LetKw
        } else if n == 4 && self.source.get_char(start) == 't' && self.source.get_char(start + 1)
            == 'r' && self.source.get_char(start + 2) == 'u' && self.source.get_char(start + 3)
            == 'e' {
            proof {
                assert(sub =~= seq!['t', 'r', 'u', 'e']);
            }
            TokenKind::TrueKw
        } else if n == 5 && self.source.get_char(start) == 'f' && self.source.get_char(start + 1)
            == 'a' && self.source.get_char(start + 2) == 'l' && self.source.get_char(start + 3)
            == 's' && self.source.get_char(start + 4) == 'e' {
            proof {
                assert(sub =~= seq!['f', 'a', 'l', 's', 'e']);
            }
            TokenKind::FalseKw
        } else {
            proof {
                assert(sub.len() == n);
                if sub == seq!['d', 'e', 'f'] {
                    assert(sub[0] == 'd' && sub[1] == 'e' && sub[2] == 'f');
                    assert(false);
                }
                if sub == seq!['l', 'e', 't'] {
                    assert(sub[0] == 'l' && sub[1] == 'e' && sub[2] == 't');
                    assert(false);
                }
                if sub == seq!['t', 'r', 'u', 'e'] {
                    assert(sub[0] == 't' && sub[1] == 'r' && sub[2] == 'u' && sub[3] == 'e');
                    assert(false);
                }
                if sub == seq!['f', 'a', 'l', 's', 'e'] {
                    assert(sub[0] == 'f' && sub[1] == 'a' && sub[2] == 'l' && sub[3] == 's'
                        && sub[4] == 'e');
                    assert(false);
                }
            }
            TokenKind::Ident
        }
    }

    /// Consume a whitespace run.
    fn whitespace(&mut self) -> (kind: TokenKind)
        requires
            old(self).wf(),
        ensures
            final(self).wf(),
            final(self).src() == old(self).src(),
            final(self).position() == ws_end(old(self).src(), old(self).position()),
            kind == TokenKind::Whitespace,
    {
        let ghost s = self.src();
        let ghost p0 = self.position();
        loop
            invariant_except_break
                self.wf(),
                self.src() == s,
                0 <= p0 <= self.position() <= s.len(),
                ws_end(s, self.position()) == ws_end(s, p0),
            ensures
                self.wf(),
                self.src() == s,
                self.position() == ws_end(s, p0),
            decreases s.len() - self.position(),
        {
            let c = self.char();
            if self.pos < self.char_len && is_whitespace(c) {
                self.bump();
            } else {
                proof {
                    assert(ws_end(s, self.position()) == self.position());
                }
                break;
            }
        }
        TokenKind::Whitespace
    }

    /// Consume a line comment body, stopping before the newline.
    fn line_comment(&mut self) -> (kind: TokenKind)
        requires
            old(self).wf(),
        ensures
            final(self).wf(),
            final(self).src() == old(self).src(),
            final(self).position() == line_comment_end(old(self).src(), old(self).position()),
            kind == TokenKind::LineComment,
    {
        let ghost s = self.src();
        let ghost p0 = self.position();
        loop
            invariant_except_break
                self.wf(),
                self.src() == s,
                0 <= p0 <= self.position() <= s.len(),
                line_comment_end(s, self.position()) == line_comment_end(s, p0),
            ensures
                self.wf(),
                self.src() == s,
                self.position() == line_comment_end(s, p0),
            decreases s.len() - self.position(),
        {
            let c = self.char();
            if c == '\n' || c == '\u{0}' {
                proof {
                    assert(line_comment_end(s, self.position()) == self.position());
                }
                break;
            } else {
                self.bump();
            }
        }
        TokenKind::LineComment
    }

    /// Consume a block comment body, through `*/` if one comes.
    fn block_comment(&mut self) -> (kind: TokenKind)
        requires
            old(self).wf(),
        ensures
            final(self).wf(),
            final(self).src() == old(self).src(),
            kind == (TokenKind::BlockComment {
                is_terminated: block_scan(old(self).src(), old(self).position()).0,
            }),
            final(self).position() == block_scan(old(self).src(), old(self).position()).1,
    {
        let ghost s = self.src();
        let ghost p0 = self.position();
        let mut is_terminated = false;
        loop
            invariant_except_break
                self.wf(),
                self.src() == s,
                0 <= p0 <= self.position() <= s.len(),
                block_scan(s, self.position()) == block_scan(s, p0),
            ensures
                self.wf(),
                self.src() == s,
                (is_terminated, self.position()) == block_scan(s, p0),
            decreases s.len() - self.position(),
        {
            let ghost pre = self.position();
            let c = self.char();
            if c == '\u{0}' {
                is_terminated = false;
                break;
            } else if c == '*' {
                let next = self.char_at_next();
                self.bump();
                if next == '/' {
                    self.bump();
                    is_terminated = true;
                    break;
                }
            } else {
                self.bump();
            }
        }
        TokenKind::BlockComment { is_terminated }
    }

    /// Scan the token that starts at the current position.
    fn token(&mut self) -> (t: Token<'a>)
        requires
            old(self).wf(),
            old(self).position() < old(self).src().len(),
        ensures
            final(self).wf(),
            final(self).src() == old(self).src(),
            t.kind == token_at(old(self).src(), old(self).position()).0,
            final(self).position() == token_at(old(self).src(), old(self).position()).1,
            t.text@ == old(self).src().subrange(
                old(self).position(),
                token_at(old(self).src(), old(self).position()).1,
            ),
            t.span.start == byte_pos_spec(old(self).src(), old(self).position()),
            t.span.end == byte_pos_spec(
                old(self).src(),
                token_at(old(self).src(), old(self).position()).1,
            ),
    {
        let ghost s = self.src();
        let ghost p0 = self.position();
        let start = self.pos;
        let byte_start = self.byte_pos;
        proof {
            lemma_token_at_bounds(s, p0);
        }

        let c = self.bump();
        let kind: TokenKind = if c == '(' {
            TokenKind::OpenParen
        } else if c == ')' {
            TokenKind::CloseParen
        } else if c == '{' {
            TokenKind::OpenBrace
        } else if c == '}' {
            TokenKind::CloseBrace
        } else if c == '<' {
            TokenKind::LessThan
        } else if c == '>' {
            TokenKind::GreaterThan
        } else if c == '+' {
            TokenKind::Plus
        } else if c == '-' {
            if self.char() == '>' {
                self.bump();
                TokenKind::Arrow
            } else {
                TokenKind::Minus
            }
        } else if c == '*' {
            TokenKind::Star
        } else if c == '/' {
            if self.char() == '/' {
                self.bump();
                self.line_comment()
            } else if self.char() == '*' {
                self.bump();
                self.block_comment()
            } else {
                TokenKind::Slash
            }
        } else if c == '%' {
            TokenKind::Percent
        } else if c == '&' {
            TokenKind::And
        } else if c == '|' {
            TokenKind::Or
        } else if c == '^' {
            TokenKind::Xor
        } else if c == ':' {
            TokenKind::Colon
        } else if c == ';' {
            TokenKind::Semicolon
        } else if c == ',' {
            TokenKind::Comma
        } else if c == '.' {
            TokenKind::Dot
        } else if c == '!' {
            TokenKind::Exclamation
        } else if c == '=' {
            TokenKind::Equals
        } else if c == '"' {
            self.string('"')
        } else if c == '\'' {
            self.string('\'')
        } else if '0' <= c && c <= '9' {
            self.integer(c)
        } else if is_ident_start(c) {
            self.ident(start)
        } else if is_whitespace(c) {
            self.whitespace()
        } else {
            TokenKind::Error
        };

        let text = self.source.substring_char(start, self.pos);
        Token { text, kind, span: Span { start: byte_start, end: self.byte_pos } }
    }

    /// Produce the next token, or nothing at end of input.
    pub fn next_token(&mut self) -> (r: Option<Token<'a>>)
        requires
            old(self).wf(),
        ensures
            final(self).wf(),
            final(self).src() == old(self).src(),
            old(self).position() >= old(self).src().len() ==> r is None && *final(self) == *old(
                self,
            ),
            old(self).position() < old(self).src().len() ==> {
                let (kind, end) = token_at(old(self).src(), old(self).position());
                &&& r is Some
                &&& r->0.kind == kind
                &&& final(self).position() == end
                &&& r->0.text@ == old(self).src().subrange(old(self).position(), end)
                &&& r->0.span.start == byte_pos_spec(old(self).src(), old(self).position())
                &&& r->0.span.end == byte_pos_spec(old(self).src(), end)
            },
    {
        if self.has_token() {
            Some(self.token())
        } else {
            None
        }
    }
}

/// The UTF-8 width of one character.
pub fn char_utf8_len(c: char) -> (r: usize)
    ensures
        r == encode_scalar(c as u32).len(),
        1 <= r <= 4,
{
    proof {
        vstd::utf8::char_is_scalar(c);
    }
    let u = c as u32;
    if u < 0x80 {
        1
    } else if u < 0x800 {
        2
    } else if u < 0x10000 {
        3
    } else {
        4
    }
}

/// Scan the whole source into its token sequence.
pub fn tokenize(source: &str) -> (r: Vec<Token<'_>>)
    ensures
        r@.len() == tokens_spec(source@, 0).len(),
        forall|j: int|
            0 <= j < r@.len() ==> {
                let (kind, start, end) = #[trigger] tokens_spec(source@, 0)[j];
                &&& r@[j].kind == kind
                &&& r@[j].text@ == source@.subrange(start, end)
                &&& r@[j].span.start == byte_pos_spec(source@, start)
                &&& r@[j].span.end == byte_pos_spec(source@, end)
            },
        concat_texts(r@) == source@,
{
    let mut lexer = Lexer::new(source);
    let mut out: Vec<Token> = Vec::new();
    let ghost s = source@;
    let ghost done: Seq<(TokenKind, int, int)> = Seq::empty();
    loop
        invariant_except_break
            lexer.wf(),
            lexer.src() == s,
            source@ == s,
            0 <= lexer.position() <= s.len(),
            tokens_spec(s, 0) == done + tokens_spec(s, lexer.position()),
            done.len() == out@.len(),
            forall|j: int|
                0 <= j < out@.len() ==> {
                    let (kind, start, end) = #[trigger] done[j];
                    &&& out@[j].kind == kind
                    &&& out@[j].text@ == s.subrange(start, end)
                    &&& out@[j].span.start == byte_pos_spec(s, start)
                    &&& out@[j].span.end == byte_pos_spec(s, end)
                },
        ensures
            done == tokens_spec(s, 0),
            done.len() == out@.len(),
            forall|j: int|
                0 <= j < out@.len() ==> {
                    let (kind, start, end) = #[trigger] done[j];
                    &&& out@[j].kind == kind
                    &&& out@[j].text@ == s.subrange(start, end)
                    &&& out@[j].span.start == byte_pos_spec(s, start)
                    &&& out@[j].span.end == byte_pos_spec(s, end)
                },
        decreases s.len() - lexer.position(),
    {
        let ghost p = lexer.position();
        match lexer.next_token() {
            Some(t) => {
                proof {
                    lemma_token_at_bounds(s, p);
                    assert(tokens_spec(s, p) == seq![(token_at(s, p).0, p, token_at(s, p).1)]
                        + tokens_spec(s, token_at(s, p).1));
                }
                out.push(t);
                proof {
                    done = done.push((token_at(s, p).0, p, token_at(s, p).1));
                    assert(tokens_spec(s, 0) =~= done + tokens_spec(s, token_at(s, p).1));
                }
            },
            None => {
                proof {
                    assert(tokens_spec(s, lexer.position()) =~= Seq::<(TokenKind, int, int)>::empty());
                    assert(tokens_spec(s, 0) =~= done);
                }
                break;
            },
        }
    }
    proof {
        assert forall|j: int| 0 <= j < out@.len() implies (#[trigger] out@[j].text@) == s.subrange(
            tokens_spec(s, 0)[j].1,
            tokens_spec(s, 0)[j].2,
        ) by {}
        lemma_tokens_tile(s, 0, out@);
        assert(s.subrange(0, s.len() as int) =~= s);
    }
    out
}

} // verus!
