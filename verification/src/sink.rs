use vstd::prelude::*;
use vstd::string::{StrSliceExecFns, StringExecFns};
use crate::event::{
    consumed_count, finish_count, fp_entry_ok, fp_ok, is_live_start, lemma_counts_congruence,
    lemma_counts_update, live_count, Event,
};
use crate::input::{lemma_sig_count_monotone, sig_count};
use crate::language::RueLanguage;
use crate::lexer::is_digit_spec;
use crate::output::{instr_raw, instrs_raw, log_text, Output, ParseError, TreeInstr};
use crate::syntax_kind::SyntaxKind;
use crate::token::{rk, Span, Token};
use crate::token_kind::{Base, TokenKind};
use crate::tree::{
    builder_finish, builder_finish_node, builder_log, builder_new, builder_start_node,
    builder_token, log_bytes, log_closes, log_opens, log_tree_shape, text_bytes,
};

verus! {

/// Every token event consumes at least one token.
pub open spec fn tok_count_pos(evs: Seq<Event>, i: int) -> bool {
    match evs[i] {
        Event::AddToken { token_count, .. } => token_count >= 1,
        _ => true,
    }
}

/// A token event standing at significant position `consumed_count(evs, i)`
/// covers raw tokens that exist and are all significant — the joint-ness
/// the parser checked for composite operators guarantees exactly this.
pub open spec fn tok_sig_entry(evs: Seq<Event>, i: int, toks: Seq<Token>, c: int) -> bool {
    match evs[i] {
        Event::AddToken { token_count, .. } => (!toks[c].kind.is_trivia_spec() && sig_count(
            rk(toks),
            c,
        ) == consumed_count(evs, i)) ==> c + token_count <= toks.len() && (forall|m: int|
            0 <= m < token_count ==> !(#[trigger] toks[c + m].kind).is_trivia_spec()),
        _ => true,
    }
}

/// What the linearizer requires of the event log, relative to the raw
/// tokens: a well-shaped top-level log (one root opened first, every finish
/// matched), forward parents that point forward at start events, and token
/// events that consume exactly the significant tokens, in order, ending at
/// the end of input.
pub open spec fn sink_pre(evs: Seq<Event>, toks: Seq<Token>) -> bool {
    &&& evs.len() >= 1
    &&& is_live_start(evs[0])
    &&& fp_ok(evs)
    &&& live_count(evs, evs.len() as int) == finish_count(evs, evs.len() as int)
    &&& forall|k: int|
        0 < k < evs.len() ==> #[trigger] finish_count(evs, k) + 1 <= live_count(evs, k)
    &&& consumed_count(evs, evs.len() as int) == sig_count(rk(toks), toks.len() as int)
    &&& toks_bytes(toks, toks.len() as int) <= u32::MAX
    &&& forall|j: int| 0 <= j < toks.len() ==> #[trigger] token_span_ok(toks[j])
    &&& forall|i: int| 0 <= i < evs.len() ==> #[trigger] tok_count_pos(evs, i)
    &&& forall|i: int, c: int|
        0 <= i < evs.len() && 0 <= c < toks.len() ==> #[trigger] tok_sig_entry(evs, i, toks, c)
}

/// The concatenated texts of the first `c` raw tokens.
pub open spec fn toks_text(toks: Seq<Token>, c: int) -> Seq<char>
    decreases c,
{
    if c <= 0 {
        Seq::empty()
    } else {
        toks_text(toks, c - 1) + toks[c - 1].text@
    }
}

/// Total UTF-8 byte length of the first `c` raw token texts.
pub open spec fn toks_bytes(toks: Seq<Token>, c: int) -> int
    decreases c,
{
    if c <= 0 {
        0
    } else {
        toks_bytes(toks, c - 1) + text_bytes(toks[c - 1].text@)
    }
}

proof fn lemma_toks_bytes_monotone(toks: Seq<Token>, i: int, j: int)
    requires
        0 <= i <= j,
    ensures
        toks_bytes(toks, i) <= toks_bytes(toks, j),
    decreases j - i,
{
    if i < j {
        lemma_toks_bytes_monotone(toks, i, j - 1);
    }
}

proof fn lemma_toks_bytes_congruence(a: Seq<Token>, b: Seq<Token>, k: int)
    requires
        forall|j: int| 0 <= j < k ==> a[j] == b[j],
    ensures
        toks_bytes(a, k) == toks_bytes(b, k),
    decreases k,
{
    if k > 0 {
        lemma_toks_bytes_congruence(a, b, k - 1);
    }
}

/// The token texts' byte lengths sum to the byte length of their
/// concatenation.
pub proof fn lemma_toks_bytes_is_concat(toks: Seq<Token>)
    ensures
        toks_bytes(toks, toks.len() as int) == text_bytes(crate::lexer::concat_texts(toks)),
    decreases toks.len(),
{
    if toks.len() == 0 {
        assert(crate::lexer::concat_texts(toks) =~= Seq::<char>::empty());
    } else {
        let a = toks.drop_last();
        lemma_toks_bytes_is_concat(a);
        lemma_toks_bytes_congruence(toks, a, toks.len() - 1);
        assert(a.push(toks.last()) =~= toks);
        lemma_concat_push(a, toks.last());
        crate::lexer::lemma_encode_utf8_concat(
            crate::lexer::concat_texts(a),
            toks.last().text@,
        );
    }
}

/// Appending one token appends its text.
pub proof fn lemma_concat_push(toks: Seq<Token>, t: Token)
    ensures
        crate::lexer::concat_texts(toks.push(t)) == crate::lexer::concat_texts(toks) + t.text@,
    decreases toks.len(),
{
    if toks.len() == 0 {
        assert(toks.push(t).drop_first() =~= Seq::<Token>::empty());
        assert(crate::lexer::concat_texts(toks) =~= Seq::<char>::empty());
        assert(toks.push(t)[0] == t);
        assert(crate::lexer::concat_texts(toks.push(t)) == t.text@ + crate::lexer::concat_texts(
            toks.push(t).drop_first(),
        ));
        assert(t.text@ + Seq::<char>::empty() =~= t.text@);
        assert(Seq::<char>::empty() + t.text@ =~= t.text@);
    } else {
        assert(toks.push(t).drop_first() =~= toks.drop_first().push(t));
        lemma_concat_push(toks.drop_first(), t);
        assert(toks.push(t)[0] == toks[0]);
        assert(toks[0].text@ + (crate::lexer::concat_texts(toks.drop_first()) + t.text@) =~= (
        toks[0].text@ + crate::lexer::concat_texts(toks.drop_first())) + t.text@);
    }
}

/// Prefix texts only depend on the prefix.
proof fn lemma_toks_text_congruence(a: Seq<Token>, b: Seq<Token>, k: int)
    requires
        forall|j: int| 0 <= j < k ==> a[j] == b[j],
    ensures
        toks_text(a, k) == toks_text(b, k),
    decreases k,
{
    if k > 0 {
        lemma_toks_text_congruence(a, b, k - 1);
    }
}

/// The two ways of concatenating all token texts agree.
pub proof fn lemma_toks_text_is_concat(toks: Seq<Token>)
    ensures
        toks_text(toks, toks.len() as int) == crate::lexer::concat_texts(toks),
    decreases toks.len(),
{
    if toks.len() == 0 {
        assert(crate::lexer::concat_texts(toks) =~= Seq::<char>::empty());
    } else {
        let a = toks.drop_last();
        lemma_toks_text_is_concat(a);
        lemma_toks_text_congruence(toks, a, toks.len() - 1);
        assert(a.push(toks.last()) =~= toks);
        lemma_concat_push(a, toks.last());
    }
}

/// A log whose entries only ever degrade to tombstones keeps its finish
/// count and never gains kind-resolved starts.
proof fn lemma_mut_counts(orig: Seq<Event>, mutv: Seq<Event>, k: int)
    requires
        orig.len() == mutv.len(),
        forall|j: int|
            0 <= j < orig.len() ==> #[trigger] mutv[j] == orig[j] || (mutv[j]
                == crate::event::tombstone_spec() && orig[j] is StartNode),
        0 <= k <= orig.len(),
    ensures
        finish_count(mutv, k) == finish_count(orig, k),
        live_count(mutv, k) <= live_count(orig, k),
    decreases k,
{
    if k > 0 {
        lemma_mut_counts(orig, mutv, k - 1);
    }
}

/// The same, over a suffix range.
proof fn lemma_mut_live_range(orig: Seq<Event>, mutv: Seq<Event>, i: int, j: int)
    requires
        orig.len() == mutv.len(),
        forall|t: int|
            0 <= t < orig.len() ==> #[trigger] mutv[t] == orig[t] || (mutv[t]
                == crate::event::tombstone_spec() && orig[t] is StartNode),
        0 <= i <= j <= orig.len(),
    ensures
        live_count(mutv, j) - live_count(mutv, i) <= live_count(orig, j) - live_count(orig, i),
    decreases j - i,
{
    if i < j {
        lemma_mut_live_range(orig, mutv, i, j - 1);
    }
}

/// Counts only grow along the log.
proof fn lemma_counts_monotone(evs: Seq<Event>, i: int, j: int)
    requires
        0 <= i <= j,
    ensures
        consumed_count(evs, i) <= consumed_count(evs, j),
        live_count(evs, i) <= live_count(evs, j),
        finish_count(evs, i) <= finish_count(evs, j),
    decreases j - i,
{
    if i < j {
        lemma_counts_monotone(evs, i, j - 1);
        match evs[j - 1] {
            Event::AddToken { token_count, .. } => {},
            _ => {},
        }
    }
}

/// A run of significant tokens raises the significant count one by one.
proof fn lemma_sig_run(toksk: Seq<TokenKind>, c: int, k: int)
    requires
        0 <= c,
        c + k <= toksk.len(),
        0 <= k,
        forall|m: int| 0 <= m < k ==> !(#[trigger] toksk[c + m]).is_trivia_spec(),
    ensures
        sig_count(toksk, c + k) == sig_count(toksk, c) + k,
    decreases k,
{
    if k > 0 {
        lemma_sig_run(toksk, c, k - 1);
        assert(!toksk[c + k - 1].is_trivia_spec());
    }
}

/// Two instruction logs that agree on a prefix agree on its counts and text.
proof fn lemma_log_congruence(a: Seq<(u16, u16, Seq<char>)>, b: Seq<(u16, u16, Seq<char>)>, k: int)
    requires
        forall|j: int| 0 <= j < k ==> a[j] == b[j],
    ensures
        log_opens(a, k) == log_opens(b, k),
        log_closes(a, k) == log_closes(b, k),
        log_text(a, k) == log_text(b, k),
        log_bytes(a, k) == log_bytes(b, k),
    decreases k,
{
    if k > 0 {
        lemma_log_congruence(a, b, k - 1);
    }
}

/// Pushing one raw instruction onto a log: counts and text step by the
/// instruction, earlier prefixes stay as they were.
proof fn lemma_log_push(ir: Seq<(u16, u16, Seq<char>)>, x: (u16, u16, Seq<char>))
    ensures
        log_opens(ir.push(x), ir.len() as int + 1) == log_opens(ir, ir.len() as int) + if x.0 == 0 {
            1int
        } else {
            0int
        },
        log_closes(ir.push(x), ir.len() as int + 1) == log_closes(ir, ir.len() as int) + if x.0 == 2 {
            1int
        } else {
            0int
        },
        log_text(ir.push(x), ir.len() as int + 1) == log_text(ir, ir.len() as int) + if x.0 == 1 {
            x.2
        } else {
            Seq::<char>::empty()
        },
        log_bytes(ir.push(x), ir.len() as int + 1) == log_bytes(ir, ir.len() as int) + if x.0
            == 1 {
            text_bytes(x.2)
        } else {
            0int
        },
        forall|k: int|
            0 <= k <= ir.len() ==> #[trigger] log_opens(ir.push(x), k) == log_opens(ir, k)
                && log_closes(ir.push(x), k) == log_closes(ir, k) && log_text(ir.push(x), k)
                == log_text(ir, k),
{
    assert forall|k: int|
        0 <= k <= ir.len() implies #[trigger] log_opens(ir.push(x), k) == log_opens(ir, k)
        && log_closes(ir.push(x), k) == log_closes(ir, k) && log_text(ir.push(x), k) == log_text(
        ir,
        k,
    ) by {
        lemma_log_congruence(ir.push(x), ir, k);
    }
    assert((ir.push(x))[ir.len() as int] == x);
    lemma_log_congruence(ir.push(x), ir, ir.len() as int);
    assert(log_opens(ir.push(x), ir.len() as int + 1) == log_opens(ir.push(x), ir.len() as int)
        + if x.0 == 0 {
        1int
    } else {
        0int
    });
    assert(log_closes(ir.push(x), ir.len() as int + 1) == log_closes(ir.push(x), ir.len() as int)
        + if x.0 == 2 {
        1int
    } else {
        0int
    });
    assert(log_text(ir.push(x), ir.len() as int + 1) == log_text(ir.push(x), ir.len() as int)
        + if x.0 == 1 {
        x.2
    } else {
        Seq::<char>::empty()
    });
    assert(log_bytes(ir.push(x), ir.len() as int + 1) == log_bytes(ir.push(x), ir.len() as int)
        + if x.0 == 1 {
        text_bytes(x.2)
    } else {
        0int
    });
}

/// A push keeps every proper prefix strictly open, provided a node is open
/// now (or the log is still empty).
proof fn lemma_shape_push(ir: Seq<(u16, u16, Seq<char>)>, x: (u16, u16, Seq<char>))
    requires
        forall|k: int| 0 < k < ir.len() ==> #[trigger] log_closes(ir, k) < log_opens(ir, k),
        ir.len() > 0 ==> log_closes(ir, ir.len() as int) < log_opens(ir, ir.len() as int),
    ensures
        forall|k: int|
            0 < k < ir.len() as int + 1 ==> #[trigger] log_closes(ir.push(x), k) < log_opens(
                ir.push(x),
                k,
            ),
{
    lemma_log_push(ir, x);
    assert forall|k: int| 0 < k < ir.len() as int + 1 implies #[trigger] log_closes(ir.push(x), k)
        < log_opens(ir.push(x), k) by {
        lemma_log_congruence(ir.push(x), ir, k);
    }
}

/// One `Invalid base N digit` diagnostic, with its one-character span, for
/// each character of an integer literal body that is neither an underscore
/// nor a digit of the base.
pub open spec fn digit_diags(text: Seq<char>, j: int, radix: u32, s0: int) -> Seq<
    (Seq<char>, Span),
>
    decreases text.len() - j,
{
    if j < 0 || j >= text.len() {
        Seq::empty()
    } else {
        (if text[j] != '_' && !is_valid_digit(text[j], radix) {
            seq![
                (
                    digit_msg(radix),
                    Span { start: (s0 + j) as usize, end: (s0 + j + 1) as usize },
                ),
            ]
        } else {
            Seq::<(Seq<char>, Span)>::empty()
        }) + digit_diags(text, j + 1, radix, s0)
    }
}

pub open spec fn is_valid_digit(c: char, radix: u32) -> bool {
    is_digit_spec(c) && (c as u32) - ('0' as u32) < radix
}

pub open spec fn digit_msg(radix: u32) -> Seq<char> {
    if radix == 2 {
        "Invalid base 2 digit"@
    } else {
        "Invalid base 8 digit"@
    }
}

/// The lexical diagnostics one token contributes when it reaches the tree:
/// unterminated strings and block comments and a base prefix without digits
/// carry the whole token's span; for binary and octal literals each digit
/// outside the base carries its own one-character span.
pub open spec fn lex_diags(t: Token) -> Seq<(Seq<char>, Span)> {
    match t.kind {
        TokenKind::String { is_terminated: false } => seq![
            ("Unterminated string literal"@, t.span),
        ],
        TokenKind::BlockComment { is_terminated: false } => seq![
            ("Unterminated block comment"@, t.span),
        ],
        TokenKind::Integer { base: _, is_empty: true } => seq![
            ("Expected digits after the integer base prefix"@, t.span),
        ],
        TokenKind::Integer { base: Base::Binary, is_empty: false } => digit_diags(
            t.text@,
            2,
            2,
            t.span.start as int,
        ),
        TokenKind::Integer { base: Base::Octal, is_empty: false } => digit_diags(
            t.text@,
            2,
            8,
            t.span.start as int,
        ),
        _ => Seq::empty(),
    }
}

pub open spec fn error_model(errors: Seq<ParseError>) -> Seq<(Seq<char>, Span)> {
    errors.map_values(|e: ParseError| (e.message@, e.span))
}

/// A token's span is coherent: it covers at least one byte per character of
/// its text (a byte span of the text can be no shorter than the text).
pub open spec fn token_span_ok(t: Token) -> bool {
    t.span.start + t.text@.len() <= t.span.end
}

/// The position after flushing the trivia run at `c`.
pub open spec fn flush_end(toks: Seq<Token>, c: int) -> int
    decreases toks.len() - c,
{
    if 0 <= c < toks.len() && toks[c].kind.is_trivia_spec() {
        flush_end(toks, c + 1)
    } else {
        c
    }
}

/// The lexical diagnostics of the trivia run at `c`, in order.
pub open spec fn flush_diags(toks: Seq<Token>, c: int) -> Seq<(Seq<char>, Span)>
    decreases toks.len() - c,
{
    if 0 <= c < toks.len() && toks[c].kind.is_trivia_spec() {
        lex_diags(toks[c]) + flush_diags(toks, c + 1)
    } else {
        Seq::empty()
    }
}

/// The lexical diagnostics of `k` consecutive tokens from `c`.
pub open spec fn run_diags(toks: Seq<Token>, c: int, k: int) -> Seq<(Seq<char>, Span)>
    decreases k,
{
    if k <= 0 {
        Seq::empty()
    } else {
        lex_diags(toks[c]) + run_diags(toks, c + 1, k - 1)
    }
}

/// Every diagnostic of the whole replay, message and span, in emission
/// order: for each event its own diagnostic (an error event carries its
/// message and the span of the current token, an empty span at the end of
/// input) or the lexical diagnostics of the tokens it attaches, then those
/// of the trivia flushed after it.
pub open spec fn diags_fold(evs: Seq<Event>, toks: Seq<Token>, i: int, c: int) -> Seq<
    (Seq<char>, Span),
>
    decreases evs.len() - i,
{
    if i < 0 || i >= evs.len() {
        Seq::empty()
    } else {
        let step = match evs[i] {
            Event::AddToken { token_count, .. } => (
                run_diags(toks, c, token_count as int),
                c + token_count,
            ),
            Event::Error(s) => (
                seq![
                    (
                        s@,
                        if 0 <= c < toks.len() {
                            toks[c].span
                        } else {
                            Span { start: 0, end: 0 }
                        },
                    ),
                ],
                c,
            ),
            _ => (Seq::<(Seq<char>, Span)>::empty(), c),
        };
        step.0 + flush_diags(toks, step.1) + diags_fold(evs, toks, i + 1, flush_end(toks, step.1))
    }
}

/// Record the lexical diagnostics of one token.
fn handle_errors(errors: &mut Vec<ParseError>, token: &Token)
    requires
        token_span_ok(*token),
    ensures
        error_model(final(errors)@) == error_model(old(errors)@) + lex_diags(*token),
{
    let ghost done0 = errors@;
    match token.kind {
        TokenKind::String { is_terminated } => {
            if !is_terminated {
                errors.push(
                    ParseError {
                        message: String::from_str("Unterminated string literal"),
                        span: token.span,
                    },
                );
                proof {
                    assert(error_model(errors@) =~= error_model(done0) + lex_diags(*token));
                }
            } else {
                proof {
                    assert(error_model(errors@) =~= error_model(done0) + lex_diags(*token));
                }
            }
        },
        TokenKind::BlockComment { is_terminated } => {
            if !is_terminated {
                errors.push(
                    ParseError {
                        message: String::from_str("Unterminated block comment"),
                        span: token.span,
                    },
                );
                proof {
                    assert(error_model(errors@) =~= error_model(done0) + lex_diags(*token));
                }
            } else {
                proof {
                    assert(error_model(errors@) =~= error_model(done0) + lex_diags(*token));
                }
            }
        },
        TokenKind::Integer { base, is_empty } => {
            if is_empty {
                errors.push(
                    ParseError {
                        message: String::from_str("Expected digits after the integer base prefix"),
                        span: token.span,
                    },
                );
                proof {
                    assert(error_model(errors@) =~= error_model(done0) + lex_diags(*token));
                }
            } else if matches!(base, Base::Binary | Base::Octal) {
                let radix: u32 = base.radix();
                let text = token.text;
                let n = text.unicode_len();
                let mut j: usize = 2;
                proof {
                    if 2 < text@.len() {
                    } else {
                        assert(digit_diags(text@, 2, radix, token.span.start as int) =~= Seq::<(
                            Seq<char>,
                            Span,
                        )>::empty());
                    }
                }
                let s0 = token.span.start;
                while j < n
                    invariant
                        2 <= j,
                        n == text@.len(),
                        radix == base.radix_spec(),
                        token.text@ == text@,
                        s0 == token.span.start,
                        token_span_ok(*token),
                        digit_diags(text@, 2, radix, s0 as int) == error_model(errors@).skip(
                            error_model(done0).len() as int,
                        ) + digit_diags(text@, j as int, radix, s0 as int),
                        error_model(errors@).len() >= error_model(done0).len(),
                        error_model(errors@).subrange(0, error_model(done0).len() as int)
                            == error_model(done0),
                    decreases n - j,
                {
                    let ghost emitted = error_model(errors@);
                    let c = text.get_char(j);
                    let bad = c != '_' && !(('0' <= c && c <= '9') && (c as u32) - ('0' as u32)
                        < radix);
                    if bad {
                        let message = if radix == 2 {
                            String::from_str("Invalid base 2 digit")
                        } else {
                            String::from_str("Invalid base 8 digit")
                        };
                        proof {
                            // the span fits: it lies inside the token's own span
                            assert(s0 + j + 1 <= token.span.end);
                        }
                        errors.push(
                            ParseError { message, span: Span { start: s0 + j, end: s0 + j + 1 } },
                        );
                    }
                    proof {
                        let d = (
                            digit_msg(radix),
                            Span { start: (s0 + j) as usize, end: (s0 + j + 1) as usize },
                        );
                        assert(digit_diags(text@, j as int, radix, s0 as int) == (if bad {
                            seq![d]
                        } else {
                            Seq::<(Seq<char>, Span)>::empty()
                        }) + digit_diags(text@, j + 1, radix, s0 as int));
                        if bad {
                            assert(error_model(errors@) =~= emitted.push(d));
                            assert(error_model(errors@).skip(error_model(done0).len() as int)
                                =~= emitted.skip(error_model(done0).len() as int) + seq![d]);
                        }
                        assert(error_model(errors@).subrange(0, error_model(done0).len() as int)
                            =~= error_model(done0));
                    }
                    j += 1;
                }
                proof {
                    assert(digit_diags(text@, j as int, radix, s0 as int) =~= Seq::<(
                        Seq<char>,
                        Span,
                    )>::empty());
                    assert(error_model(errors@) =~= error_model(done0) + error_model(errors@).skip(
                        error_model(done0).len() as int,
                    ));
                    assert(error_model(errors@) =~= error_model(done0) + lex_diags(*token));
                }
            } else {
                proof {
                    assert(error_model(errors@) =~= error_model(done0) + lex_diags(*token));
                }
            }
        },
        _ => {
            proof {
                assert(error_model(errors@) =~= error_model(done0) + lex_diags(*token));
            }
        },
    }
}

/// The kinds a forward-parent walk from `idx` collects (beyond the start
/// event at `idx` itself), and the log with every visited link tombstoned.
pub open spec fn walk_spec(evs: Seq<Event>, idx: int, fp: Option<usize>) -> (
    Seq<SyntaxKind>,
    Seq<Event>,
)
    decreases evs.len() - idx,
    when 0 <= idx
{
    match fp {
        None => (Seq::<SyntaxKind>::empty(), evs),
        Some(d) => {
            if 1 <= d && idx + d < evs.len() {
                match evs[idx + d] {
                    Event::StartNode { kind, forward_parent } => {
                        let w = walk_spec(evs.update(idx + d, crate::event::tombstone_spec()), idx + d, forward_parent);
                        (seq![kind] + w.0, w.1)
                    },
                    _ => (Seq::<SyntaxKind>::empty(), evs),
                }
            } else {
                (Seq::<SyntaxKind>::empty(), evs)
            }
        },
    }
}

/// A walk never changes the log's length.
proof fn lemma_walk_len(evs: Seq<Event>, idx: int, fp: Option<usize>)
    requires
        0 <= idx,
    ensures
        walk_spec(evs, idx, fp).1.len() == evs.len(),
    decreases evs.len() - idx,
{
    match fp {
        None => {},
        Some(d) => {
            if 1 <= d && idx + d < evs.len() {
                match evs[idx + d] {
                    Event::StartNode { kind, forward_parent } => {
                        lemma_walk_len(
                            evs.update(idx + d, crate::event::tombstone_spec()),
                            idx + d,
                            forward_parent,
                        );
                    },
                    _ => {},
                }
            }
        },
    }
}

/// The open instructions a collected chain yields: outermost first, that is
/// the deepest walked link first, placeholders skipped.
pub open spec fn opens_of(chain: Seq<SyntaxKind>) -> Seq<(u16, u16, Seq<char>)>
    decreases chain.len(),
{
    if chain.len() == 0 {
        Seq::empty()
    } else {
        (if chain.last() != SyntaxKind::Tombstone {
            seq![
                (
                    0u16,
                    crate::syntax_kind::kind_index(chain.last()) as u16,
                    Seq::<char>::empty(),
                ),
            ]
        } else {
            Seq::<(u16, u16, Seq<char>)>::empty()
        }) + opens_of(chain.drop_last())
    }
}

/// Prepending a kind appends its open instruction at the back.
proof fn lemma_opens_cons(x: SyntaxKind, s: Seq<SyntaxKind>)
    ensures
        opens_of(seq![x] + s) == opens_of(s) + (if x != SyntaxKind::Tombstone {
            seq![(0u16, crate::syntax_kind::kind_index(x) as u16, Seq::<char>::empty())]
        } else {
            Seq::<(u16, u16, Seq<char>)>::empty()
        }),
    decreases s.len(),
{
    let cx = seq![x] + s;
    if s.len() == 0 {
        let dx: Seq<(u16, u16, Seq<char>)> = if x != SyntaxKind::Tombstone {
            seq![(0u16, crate::syntax_kind::kind_index(x) as u16, Seq::<char>::empty())]
        } else {
            Seq::<(u16, u16, Seq<char>)>::empty()
        };
        assert(cx.drop_last() =~= Seq::<SyntaxKind>::empty());
        assert(cx.last() == x);
        assert(opens_of(Seq::<SyntaxKind>::empty()) == Seq::<(u16, u16, Seq<char>)>::empty());
        assert(s =~= Seq::<SyntaxKind>::empty());
        assert(opens_of(cx) == dx + Seq::<(u16, u16, Seq<char>)>::empty());
        assert(dx + Seq::<(u16, u16, Seq<char>)>::empty() =~= dx);
        assert(Seq::<(u16, u16, Seq<char>)>::empty() + dx =~= dx);
    } else {
        let dx: Seq<(u16, u16, Seq<char>)> = if x != SyntaxKind::Tombstone {
            seq![(0u16, crate::syntax_kind::kind_index(x) as u16, Seq::<char>::empty())]
        } else {
            Seq::<(u16, u16, Seq<char>)>::empty()
        };
        let dl: Seq<(u16, u16, Seq<char>)> = if s.last() != SyntaxKind::Tombstone {
            seq![(0u16, crate::syntax_kind::kind_index(s.last()) as u16, Seq::<char>::empty())]
        } else {
            Seq::<(u16, u16, Seq<char>)>::empty()
        };
        assert(cx.last() == s.last());
        assert(cx.drop_last() =~= seq![x] + s.drop_last());
        lemma_opens_cons(x, s.drop_last());
        assert(opens_of(cx) == dl + (opens_of(s.drop_last()) + dx));
        assert(dl + (opens_of(s.drop_last()) + dx) =~= (dl + opens_of(s.drop_last())) + dx);
        assert(opens_of(s) == dl + opens_of(s.drop_last()));
    }
}

/// The leaf instructions of the trivia run at `c`.
pub open spec fn flush_instrs(toks: Seq<Token>, c: int) -> Seq<(u16, u16, Seq<char>)>
    decreases toks.len() - c,
{
    if 0 <= c < toks.len() && toks[c].kind.is_trivia_spec() {
        seq![
            (
                1u16,
                crate::syntax_kind::kind_index(
                    crate::syntax_kind::syntax_kind_of(toks[c].kind),
                ) as u16,
                toks[c].text@,
            ),
        ] + flush_instrs(toks, c + 1)
    } else {
        Seq::empty()
    }
}

/// The concatenated text of `k` raw tokens from `c`.
pub open spec fn run_text(toks: Seq<Token>, c: int, k: int) -> Seq<char>
    decreases k,
{
    if k <= 0 {
        Seq::empty()
    } else {
        toks[c].text@ + run_text(toks, c + 1, k - 1)
    }
}

proof fn lemma_run_text_snoc(toks: Seq<Token>, c: int, k: int)
    requires
        0 <= k,
    ensures
        run_text(toks, c, k + 1) == run_text(toks, c, k) + toks[c + k].text@,
    decreases k,
{
    if k == 0 {
        assert(run_text(toks, c, 1) == toks[c].text@ + run_text(toks, c + 1, 0));
        assert(toks[c].text@ + Seq::<char>::empty() =~= toks[c].text@);
        assert(Seq::<char>::empty() + toks[c].text@ =~= toks[c].text@);
    } else {
        lemma_run_text_snoc(toks, c + 1, k - 1);
        assert(toks[c].text@ + (run_text(toks, c + 1, k - 1) + toks[c + k].text@) =~= (
        toks[c].text@ + run_text(toks, c + 1, k - 1)) + toks[c + k].text@);
    }
}

/// The whole single-pass linearization, as a function of the event log and
/// the raw tokens: per event the instructions it emits (spec section 4.5 —
/// a forward-parent chain opened outermost-first with placeholders skipped,
/// one aggregated leaf per token event, one close per finish event), each
/// followed by the trivia flushed after it.
pub open spec fn linearize_spec(evs: Seq<Event>, toks: Seq<Token>, i: int, c: int) -> Seq<
    (u16, u16, Seq<char>),
>
    decreases evs.len() - i,
    when 0 <= i
    via linearize_spec_dec
{
    if i >= evs.len() {
        Seq::empty()
    } else {
        match evs[i] {
            Event::StartNode { kind, forward_parent } => {
                let w = walk_spec(evs, i, forward_parent);
                opens_of(seq![kind] + w.0) + flush_instrs(toks, c) + linearize_spec(
                    w.1,
                    toks,
                    i + 1,
                    flush_end(toks, c),
                )
            },
            Event::AddToken { kind, token_count } => seq![
                (
                    1u16,
                    crate::syntax_kind::kind_index(kind) as u16,
                    run_text(toks, c, token_count as int),
                ),
            ] + flush_instrs(toks, c + token_count) + linearize_spec(
                evs,
                toks,
                i + 1,
                flush_end(toks, c + token_count),
            ),
            Event::Error(_) => flush_instrs(toks, c) + linearize_spec(
                evs,
                toks,
                i + 1,
                flush_end(toks, c),
            ),
            Event::FinishNode => seq![(2u16, 0u16, Seq::<char>::empty())] + flush_instrs(
                toks,
                c,
            ) + linearize_spec(evs, toks, i + 1, flush_end(toks, c)),
        }
    }
}

#[via_fn]
proof fn linearize_spec_dec(evs: Seq<Event>, toks: Seq<Token>, i: int, c: int) {
    if 0 <= i < evs.len() {
        match evs[i] {
            Event::StartNode { kind, forward_parent } => {
                lemma_walk_len(evs, i, forward_parent);
            },
            _ => {},
        }
    }
}

/// The single-pass linearizer: it replays the flat event log against the
/// external tree service, resolving forward parents, aggregating composite
/// operators into single leaves, flushing trivia after every event, and
/// collecting diagnostics.
pub struct Sink<'a, 't> {
    events: Vec<Event>,
    tokens: &'a [Token<'t>],
    cursor: usize,
    builder: rowan::GreenNodeBuilder<'static>,
    errors: Vec<ParseError>,
    instrs: Vec<TreeInstr>,
}

impl<'a, 't> Sink<'a, 't> {
    pub closed spec fn evs(self) -> Seq<Event> {
        self.events@
    }

    pub closed spec fn toks(self) -> Seq<Token<'t>> {
        self.tokens@
    }

    pub closed spec fn fresh(self) -> bool {
        &&& self.cursor == 0
        &&& builder_log(self.builder) == Seq::<(u16, u16, Seq<char>)>::empty()
        &&& self.errors@.len() == 0
        &&& self.instrs@.len() == 0
    }

    pub fn new(events: Vec<Event>, tokens: &'a [Token<'t>]) -> (r: Sink<'a, 't>)
        ensures
            r.evs() == events@,
            r.toks() == tokens@,
            r.fresh(),
    {
        Sink {
            events,
            tokens,
            cursor: 0,
            builder: builder_new(),
            errors: Vec::new(),
            instrs: Vec::new(),
        }
    }

    /// Replay the whole log.  The result's leaves concatenate to exactly
    /// the concatenation of all raw token texts (losslessness), and the
    /// instruction sequence handed to the tree service is one strictly
    /// well-nested tree.
    #[verifier::rlimit(100)]
    pub fn finish(self) -> (out: Output)
        requires
            sink_pre(self.evs(), self.toks()),
            self.fresh(),
        ensures
            log_tree_shape(instrs_raw(out.instrs@)),
            log_text(instrs_raw(out.instrs@), out.instrs@.len() as int) == toks_text(
                self.toks(),
                self.toks().len() as int,
            ),
            error_model(out.errors@) == diags_fold(self.evs(), self.toks(), 0, 0),
            instrs_raw(out.instrs@) == linearize_spec(self.evs(), self.toks(), 0, 0),
    {
        let Sink { mut events, tokens, mut cursor, mut builder, mut errors, mut instrs } = self;
        let ghost orig = events@;
        let ghost toks = tokens@;
        let ghost toksk = rk(toks);
        let total_events = events.len();
        let mut i: usize = 0;

        proof {
            assert(toks_text(toks, 0) =~= Seq::<char>::empty());
            assert(error_model(errors@) =~= Seq::<(Seq<char>, Span)>::empty());
            assert(Seq::<(Seq<char>, Span)>::empty() + diags_fold(orig, toks, 0, 0) =~= diags_fold(
                orig,
                toks,
                0,
                0,
            ));
            assert(instrs_raw(instrs@) =~= Seq::<(u16, u16, Seq<char>)>::empty());
            assert(Seq::<(u16, u16, Seq<char>)>::empty() + linearize_spec(orig, toks, 0, 0)
                =~= linearize_spec(orig, toks, 0, 0));
        }

        while i < total_events
            invariant
                sink_pre(orig, toks),
                toksk == rk(toks),
                toks == tokens@,
                total_events == orig.len(),
                0 <= i <= orig.len(),
                events@.len() == orig.len(),
                forall|j: int|
                    0 <= j < orig.len() ==> #[trigger] events@[j] == orig[j] || (events@[j]
                        == crate::event::tombstone_spec() && orig[j] is StartNode),
                events@.len() > 0 && events@[0] == orig[0],
                i == 0 ==> instrs@.len() == 0,
                0 <= cursor <= toks.len(),
                sig_count(toksk, cursor as int) == consumed_count(orig, i as int),
                i >= 1 ==> (cursor == toks.len() || !toks[cursor as int].kind.is_trivia_spec()),
                builder_log(builder) == instrs_raw(instrs@),
                log_opens(instrs_raw(instrs@), instrs@.len() as int) == live_count(
                    events@,
                    i as int,
                ) + live_count(orig, orig.len() as int) - live_count(events@, orig.len() as int),
                log_closes(instrs_raw(instrs@), instrs@.len() as int) == finish_count(
                    orig,
                    i as int,
                ),
                forall|k: int|
                    0 < k < instrs@.len() ==> #[trigger] log_closes(instrs_raw(instrs@), k)
                        < log_opens(instrs_raw(instrs@), k),
                instrs@.len() > 0 ==> instrs_raw(instrs@)[0].0 == 0,
                i >= 1 ==> instrs@.len() > 0,
                log_text(instrs_raw(instrs@), instrs@.len() as int) == toks_text(
                    toks,
                    cursor as int,
                ),
                log_bytes(instrs_raw(instrs@), instrs@.len() as int) == toks_bytes(
                    toks,
                    cursor as int,
                ),
                diags_fold(orig, toks, 0, 0) == error_model(errors@) + diags_fold(
                    orig,
                    toks,
                    i as int,
                    cursor as int,
                ),
                linearize_spec(orig, toks, 0, 0) == instrs_raw(instrs@) + linearize_spec(
                    events@,
                    toks,
                    i as int,
                    cursor as int,
                ),
            decreases orig.len() - i,
        {
            let ghost ir0 = instrs_raw(instrs@);
            let ghost n0 = instrs@.len() as int;
            let ghost evs0 = events@;
            let ghost i_top = i as int;
            let ghost c0 = cursor as int;
            let ghost errs_top = error_model(errors@);
            let ghost mut step_diags: Seq<(Seq<char>, Span)> = Seq::empty();
            let ghost mut step_instrs: Seq<(u16, u16, Seq<char>)> = Seq::empty();

            proof {
                // the depth so far, at this event boundary
                if 0 < i {
                    lemma_mut_counts(orig, events@, i as int);
                    lemma_mut_live_range(orig, events@, i as int, orig.len() as int);
                    assert(log_opens(ir0, n0) - log_closes(ir0, n0) >= live_count(orig, i as int)
                        - finish_count(orig, i as int));
                    assert(finish_count(orig, i as int) + 1 <= live_count(orig, i as int));
                }
            }

            let (is_start_ev, kind0, fp0): (bool, SyntaxKind, Option<usize>) = match &events[i] {
                Event::StartNode { kind, forward_parent } => (true, *kind, *forward_parent),
                _ => (false, SyntaxKind::Tombstone, None),
            };

            if is_start_ev {
                // collect the forward-parent chain, tombstoning each link
                let mut chain: Vec<SyntaxKind> = Vec::new();
                chain.push(kind0);
                let mut idx: usize = i;
                let mut fpo: Option<usize> = fp0;
                let ghost base = live_count(events@, orig.len() as int);
                proof {
                    assert(chain@ =~= seq![kind0]);
                    assert(chain@[0] == kind0);
                    assert(chain@.skip(1) =~= Seq::<SyntaxKind>::empty());
                    assert(Seq::<SyntaxKind>::empty() + walk_spec(evs0, i_top, fp0).0 =~= walk_spec(
                        evs0,
                        i_top,
                        fp0,
                    ).0);
                    assert(nontomb_count(chain@, 0) == 0);
                    assert(nontomb_count(chain@, 1) == if kind0 != SyntaxKind::Tombstone {
                        1int
                    } else {
                        0int
                    });
                    // the first link is well formed
                    if events@[i as int] == orig[i as int] {
                        assert(fp_entry_ok(orig, i as int));
                    }
                }
                loop
                    invariant_except_break
                        chain@[0] == kind0,
                        walk_spec(evs0, i_top, fp0).0 == chain@.skip(1) + walk_spec(
                            events@,
                            idx as int,
                            fpo,
                        ).0,
                        walk_spec(evs0, i_top, fp0).1 == walk_spec(events@, idx as int, fpo).1,
                        base >= live_count(events@, orig.len() as int),
                        total_events == orig.len(),
                        events@.len() == orig.len(),
                        forall|j: int|
                            0 <= j < orig.len() ==> #[trigger] events@[j] == orig[j] || (events@[j]
                                == crate::event::tombstone_spec() && orig[j] is StartNode),
                        forall|t: int| 0 <= t <= i ==> events@[t] == evs0[t],
                        fp_ok(orig),
                        0 <= i <= idx < orig.len(),
                        chain@.len() >= 1,
                        nontomb_count(chain@, chain@.len() as int) == (if kind0
                            != SyntaxKind::Tombstone {
                            1int
                        } else {
                            0int
                        }) + base - live_count(events@, orig.len() as int),
                        (match fpo {
                            Some(d) => d >= 1 && idx + d < orig.len() && events@[idx
                                + d] is StartNode,
                            None => true,
                        }),
                    ensures
                        chain@[0] == kind0,
                        walk_spec(evs0, i_top, fp0).0 == chain@.skip(1),
                        walk_spec(evs0, i_top, fp0).1 == events@,
                        base >= live_count(events@, orig.len() as int),
                        total_events == orig.len(),
                        events@.len() == orig.len(),
                        forall|j: int|
                            0 <= j < orig.len() ==> #[trigger] events@[j] == orig[j] || (events@[j]
                                == crate::event::tombstone_spec() && orig[j] is StartNode),
                        forall|t: int| 0 <= t <= i ==> events@[t] == evs0[t],
                        chain@.len() >= 1,
                        nontomb_count(chain@, chain@.len() as int) == (if kind0
                            != SyntaxKind::Tombstone {
                            1int
                        } else {
                            0int
                        }) + base - live_count(events@, orig.len() as int),
                    decreases orig.len() - idx,
                {
                    match fpo {
                        None => {
                            proof {
                                assert(walk_spec(events@, idx as int, fpo).0
                                    =~= Seq::<SyntaxKind>::empty());
                                assert(walk_spec(events@, idx as int, fpo).1 == events@);
                                assert(chain@.skip(1) + Seq::<SyntaxKind>::empty() =~= chain@.skip(
                                    1,
                                ));
                            }
                            break ;
                        },
                        Some(d) => {
                            idx = idx + d;
                            proof {
                                assert(events@[idx as int] is StartNode);
                            }
                            let (k2, f2): (SyntaxKind, Option<usize>) = match &events[idx] {
                                Event::StartNode { kind, forward_parent } => (
                                    *kind,
                                    *forward_parent,
                                ),
                                _ => {
                                    proof {
                                        assert(false);
                                    }
                                    (SyntaxKind::Tombstone, None)
                                },
                            };
                            proof {
                                assert(events@[idx as int] == (Event::StartNode {
                                    kind: k2,
                                    forward_parent: f2,
                                }));
                            }
                            let ghost pre_evs = events@;
                            let ghost chain0 = chain@;
                            events[idx] = Event::tombstone();
                            chain.push(k2);
                            fpo = f2;
                            proof {
                                assert(chain@ == chain0.push(k2));
                                assert(chain@.drop_last() =~= chain0);
                                // the walk step matches one unfolding of the spec walk
                                assert(pre_evs[idx as int] == (Event::StartNode {
                                    kind: k2,
                                    forward_parent: f2,
                                }));
                                assert(walk_spec(pre_evs, idx - d, Some(d)).0 == seq![k2]
                                    + walk_spec(events@, idx as int, f2).0);
                                assert(walk_spec(pre_evs, idx - d, Some(d)).1 == walk_spec(
                                    events@,
                                    idx as int,
                                    f2,
                                ).1);
                                assert(chain0.skip(1) + (seq![k2] + walk_spec(
                                    events@,
                                    idx as int,
                                    f2,
                                ).0) =~= (chain0.skip(1) + seq![k2]) + walk_spec(
                                    events@,
                                    idx as int,
                                    f2,
                                ).0);
                                assert(chain@.skip(1) =~= chain0.skip(1) + seq![k2]);
                                lemma_counts_update(
                                    pre_evs,
                                    idx as int,
                                    crate::event::tombstone_spec(),
                                    orig.len() as int,
                                );
                                assert(pre_evs[idx as int] is StartNode);
                                assert(orig[idx as int] is StartNode);
                                assert forall|t: int| 0 <= t <= i implies events@[t] == evs0[t] by {
                                    assert(events@[t] == pre_evs[t]);
                                }
                                assert(is_live_start(pre_evs[idx as int]) == (k2
                                    != SyntaxKind::Tombstone));
                                assert(live_count(events@, orig.len() as int) == live_count(
                                    pre_evs,
                                    orig.len() as int,
                                ) - if k2 != SyntaxKind::Tombstone {
                                    1int
                                } else {
                                    0int
                                });
                                if f2 is Some {
                                    assert(pre_evs[idx as int] == orig[idx as int]);
                                    assert(fp_entry_ok(orig, idx as int));
                                    let d2 = f2->0;
                                    assert(orig[idx + d2] is StartNode);
                                    assert(events@[idx + d2] == orig[idx + d2] || events@[idx + d2]
                                        == crate::event::tombstone_spec());
                                    assert(events@[idx + d2] is StartNode);
                                }
                                assert(nontomb_count(chain@, chain@.len() as int) == nontomb_count(
                                    chain0,
                                    chain0.len() as int,
                                ) + if k2 != SyntaxKind::Tombstone {
                                    1int
                                } else {
                                    0int
                                }) by {
                                    lemma_nontomb_congruence(chain@, chain0, chain0.len() as int);
                                }
                            }
                        },
                    }
                }

                // open the accumulated chain outermost-first
                let mut j = chain.len();
                proof {
                    assert(chain@.skip(chain@.len() as int) =~= Seq::<SyntaxKind>::empty());
                    assert(opens_of(Seq::<SyntaxKind>::empty()) == Seq::<(
                        u16,
                        u16,
                        Seq<char>,
                    )>::empty());
                    assert(ir0 + Seq::<(u16, u16, Seq<char>)>::empty() =~= ir0);
                    if i == 0 {
                        assert(n0 == 0);
                        assert(log_opens(ir0, 0) == 0 && log_closes(ir0, 0) == 0);
                    }
                }
                while j > 0
                    invariant
                        0 <= j <= chain@.len(),
                        instrs_raw(instrs@) == ir0 + opens_of(chain@.skip(j as int)),
                        builder_log(builder) == instrs_raw(instrs@),
                        log_opens(instrs_raw(instrs@), instrs@.len() as int) == log_opens(ir0, n0)
                            + nontomb_count(chain@, chain@.len() as int) - nontomb_count(
                            chain@,
                            j as int,
                        ),
                        log_closes(instrs_raw(instrs@), instrs@.len() as int) == log_closes(
                            ir0,
                            n0,
                        ),
                        log_text(instrs_raw(instrs@), instrs@.len() as int) == log_text(ir0, n0),
                        log_bytes(instrs_raw(instrs@), instrs@.len() as int) == log_bytes(ir0, n0),
                        instrs@.len() >= n0,
                        forall|k: int| 0 <= k < n0 ==> #[trigger] instrs_raw(instrs@)[k] == ir0[k],
                        forall|k: int|
                            0 < k < instrs@.len() ==> #[trigger] log_closes(instrs_raw(instrs@), k)
                                < log_opens(instrs_raw(instrs@), k),
                        instrs@.len() > 0 ==> instrs_raw(instrs@)[0].0 == 0,
                        n0 > 0 ==> instrs@.len() > 0 && instrs_raw(instrs@)[0].0 == 0,
                        n0 == 0 && instrs@.len() > 0 ==> instrs_raw(instrs@)[0].0 == 0,
                        0 < i ==> log_opens(ir0, n0) - log_closes(ir0, n0) >= 1,
                        i == 0 ==> n0 == 0,
                        instrs@.len() > 0 ==> log_closes(instrs_raw(instrs@), instrs@.len() as int)
                            < log_opens(instrs_raw(instrs@), instrs@.len() as int),
                    decreases j,
                {
                    j = j - 1;
                    let k = chain[j];
                    proof {
                        assert(chain@.skip(j as int) =~= seq![chain@[j as int]] + chain@.skip(
                            j + 1,
                        ));
                        lemma_opens_cons(chain@[j as int], chain@.skip(j + 1));
                    }
                    if !matches!(k, SyntaxKind::Tombstone) {
                        let ghost pre_instrs = instrs@;
                        let ghost pre_ir = instrs_raw(instrs@);
                        builder_start_node(&mut builder, RueLanguage::kind_to_raw(k));
                        instrs.push(TreeInstr::StartNode { kind: k });
                        proof {
                            lemma_instrs_push(pre_instrs, TreeInstr::StartNode { kind: k });
                            lemma_log_push(pre_ir, (0u16, crate::syntax_kind::kind_index(k) as u16, Seq::<char>::empty()));
                            lemma_shape_push(pre_ir, (0u16, crate::syntax_kind::kind_index(k) as u16, Seq::<char>::empty()));
                            lemma_nontomb_step(chain@, j as int);
                            assert(instrs_raw(instrs@)[0].0 == 0) by {
                                if pre_instrs.len() > 0 {
                                    assert(instrs_raw(instrs@)[0] == pre_ir[0]);
                                }
                            }
                            assert(ir0 + (opens_of(chain@.skip(j + 1)) + seq![
                                (0u16, crate::syntax_kind::kind_index(k) as u16, Seq::<char>::empty()),
                            ]) =~= (ir0 + opens_of(chain@.skip(j + 1))) + seq![
                                (0u16, crate::syntax_kind::kind_index(k) as u16, Seq::<char>::empty()),
                            ]);
                        }
                    } else {
                        proof {
                            lemma_nontomb_step(chain@, j as int);
                            assert(opens_of(chain@.skip(j as int)) =~= opens_of(chain@.skip(
                                j + 1,
                            )));
                        }
                    }
                }
                proof {
                    assert(chain@.skip(0) =~= chain@);
                    assert(chain@ =~= seq![kind0] + chain@.skip(1));
                    step_instrs = opens_of(seq![kind0] + walk_spec(evs0, i_top, fp0).0);
                    assert(instrs_raw(instrs@) == ir0 + step_instrs);
                    // one unfolding of the spec linearizer at this start event
                    assert(evs0[i_top] == (Event::StartNode {
                        kind: kind0,
                        forward_parent: fp0,
                    }));
                    assert(linearize_spec(evs0, toks, i_top, c0) == step_instrs + flush_instrs(
                        toks,
                        c0,
                    ) + linearize_spec(events@, toks, i_top + 1, flush_end(toks, c0)));
                    assert(nontomb_count(chain@, 0) == 0);
                    // the event before a flush is never the final finish here
                    lemma_last_is_fin(orig);
                    assert(orig[orig.len() - 1] is FinishNode);
                    assert(orig[i as int] is StartNode);
                    assert(i + 1 < orig.len());
                    // at least the root-side start was opened
                    if i == 0 {
                        assert(is_live_start(orig[0]));
                        assert(kind0 != SyntaxKind::Tombstone);
                        assert(nontomb_count(chain@, chain@.len() as int) >= 1);
                        assert(log_opens(instrs_raw(instrs@), instrs@.len() as int) >= 1);
                        assert(instrs@.len() > 0) by {
                            if instrs@.len() == 0 {
                                assert(log_opens(instrs_raw(instrs@), 0) == 0);
                            }
                        }
                    }
                    // restore the depth accounting at the next boundary
                    assert(live_count(events@, i + 1) == live_count(events@, i as int)
                        + if is_live_start(events@[i as int]) {
                        1int
                    } else {
                        0int
                    });
                    assert(events@[i as int] == evs0[i as int]);
                    assert(live_count(evs0, i + 1) == live_count(events@, i + 1)) by {
                        lemma_counts_congruence(evs0, events@, i + 1);
                    }
                    assert(finish_count(orig, i + 1) == finish_count(orig, i as int));
                    assert(consumed_count(orig, i + 1) == consumed_count(orig, i as int));
                }
            } else {
                let (is_token_ev, tkind, tcount): (bool, SyntaxKind, usize) = match &events[i] {
                    Event::AddToken { kind, token_count } => (true, *kind, *token_count),
                    _ => (false, SyntaxKind::Tombstone, 0),
                };
                if is_token_ev {
                    proof {
                        assert(events@[i as int] == orig[i as int]);
                        assert(tok_count_pos(orig, i as int));
                        assert(i >= 1) by {
                            if i == 0 {
                                assert(is_live_start(orig[0]));
                                assert(false);
                            }
                        }
                        // the cursor stands on a significant token
                        assert(cursor < toks.len()) by {
                            if cursor == toks.len() {
                                lemma_counts_monotone(orig, i + 1, orig.len() as int);
                                assert(consumed_count(orig, i + 1) == consumed_count(
                                    orig,
                                    i as int,
                                ) + tcount);
                                lemma_sig_count_monotone(toksk, cursor as int, toks.len() as int);
                                assert(false);
                            }
                        }
                        assert(tok_sig_entry(orig, i as int, toks, cursor as int));
                        assert(cursor + tcount <= toks.len());
                    }
                    // aggregate the covered raw tokens into one leaf
                    let ntoks = tokens.len();
                    let mut text = String::new();
                    let mut m: usize = 0;
                    proof {
                        assert(toks_text(toks, cursor as int) + text@ =~= toks_text(
                            toks,
                            cursor as int,
                        ));
                    }
                    proof {
                        assert(error_model(errors@) + run_diags(toks, c0 + 0, tcount as int)
                            =~= errs_top + run_diags(toks, c0, tcount as int));
                    }
                    while m < tcount
                        invariant
                            0 <= m <= tcount,
                            cursor + tcount <= toks.len(),
                            cursor == c0,
                            ntoks == toks.len(),
                            toks == tokens@,
                            forall|jj: int|
                                0 <= jj < toks.len() ==> #[trigger] token_span_ok(toks[jj]),
                            text@ == toks_text(toks, cursor + m as int).skip(
                                toks_text(toks, cursor as int).len() as int,
                            ),
                            toks_text(toks, cursor as int) + text@ == toks_text(
                                toks,
                                cursor + m as int,
                            ),
                            text_bytes(text@) == toks_bytes(toks, cursor + m as int) - toks_bytes(
                                toks,
                                cursor as int,
                            ),
                            text@ == run_text(toks, cursor as int, m as int),
                            errs_top + run_diags(toks, c0, tcount as int) == error_model(errors@)
                                + run_diags(toks, c0 + m, tcount - m),
                        decreases tcount - m,
                    {
                        let t = &tokens[cursor + m];
                        let ghost errs_pre = error_model(errors@);
                        let ghost text_pre = text@;
                        handle_errors(&mut errors, t);
                        text.append(t.text);
                        proof {
                            crate::lexer::lemma_encode_utf8_concat(
                                text_pre,
                                toks[cursor + m as int].text@,
                            );
                            lemma_run_text_snoc(toks, cursor as int, m as int);
                            assert(toks_text(toks, cursor + m + 1) == toks_text(
                                toks,
                                cursor + m as int,
                            ) + toks[cursor + m as int].text@);
                            assert(toks_text(toks, cursor + m + 1).skip(
                                toks_text(toks, cursor as int).len() as int,
                            ) =~= text@);
                            assert(run_diags(toks, c0 + m, tcount - m) == lex_diags(
                                toks[c0 + m],
                            ) + run_diags(toks, c0 + m + 1, tcount - m - 1));
                            assert(error_model(errors@) =~= errs_pre + lex_diags(toks[c0 + m]));
                            assert(errs_pre + (lex_diags(toks[c0 + m]) + run_diags(
                                toks,
                                c0 + m + 1,
                                tcount - m - 1,
                            )) =~= (errs_pre + lex_diags(toks[c0 + m])) + run_diags(
                                toks,
                                c0 + m + 1,
                                tcount - m - 1,
                            ));
                        }
                        m += 1;
                    }
                    proof {
                        assert(run_diags(toks, c0 + tcount, 0) =~= Seq::<(Seq<char>, Span)>::empty());
                        assert(error_model(errors@) + Seq::<(Seq<char>, Span)>::empty() =~= error_model(
                            errors@,
                        ));
                        step_diags = run_diags(toks, c0, tcount as int);
                        assert(error_model(errors@) == errs_top + step_diags);
                    }
                    let ghost pre_instrs = instrs@;
                    let ghost pre_ir = instrs_raw(instrs@);
                    let ghost txtv = text@;
                    proof {
                        lemma_toks_bytes_monotone(toks, cursor + tcount, toks.len() as int);
                    }
                    builder_token(&mut builder, RueLanguage::kind_to_raw(tkind), text.as_str());
                    instrs.push(TreeInstr::Token { kind: tkind, text });
                    cursor = cursor + tcount;
                    proof {
                        lemma_instrs_push(pre_instrs, instrs@.last());
                        lemma_log_push(pre_ir, (1u16, crate::syntax_kind::kind_index(tkind) as u16, txtv));
                        lemma_shape_push(pre_ir, (1u16, crate::syntax_kind::kind_index(tkind) as u16, txtv));
                        assert(instrs_raw(instrs@)[0] == pre_ir[0]);
                        assert(forall|mm: int|
                            0 <= mm < tcount ==> !(#[trigger] toks[cursor - tcount + mm].kind).is_trivia_spec());
                        lemma_sig_run(toksk, cursor - tcount, tcount as int);
                        assert(consumed_count(orig, i + 1) == consumed_count(orig, i as int)
                            + tcount);
                        lemma_last_is_fin(orig);
                        assert(orig[i as int] is AddToken);
                        assert(i + 1 < orig.len());
                        step_instrs = seq![
                            (
                                1u16,
                                crate::syntax_kind::kind_index(tkind) as u16,
                                run_text(toks, c0, tcount as int),
                            ),
                        ];
                        assert(txtv == run_text(toks, c0, tcount as int));
                        assert(instrs_raw(instrs@) =~= ir0 + step_instrs);
                        assert(evs0[i_top] == (Event::AddToken {
                            kind: tkind,
                            token_count: tcount,
                        }));
                        assert(linearize_spec(evs0, toks, i_top, c0) == step_instrs
                            + flush_instrs(toks, c0 + tcount) + linearize_spec(
                            events@,
                            toks,
                            i_top + 1,
                            flush_end(toks, c0 + tcount),
                        ));
                    }
                } else {
                    let (is_err_ev, message): (bool, String) = match &events[i] {
                        Event::Error(msg) => (true, msg.clone()),
                        _ => (false, String::new()),
                    };
                    if is_err_ev {
                        let span = if cursor < tokens.len() {
                            tokens[cursor].span
                        } else {
                            Span::empty()
                        };
                        proof {
                            assert(events@[i as int] == orig[i as int]);
                        }
                        let ghost msg_view = message@;
                        let ghost spanv = span;
                        errors.push(ParseError { message, span });
                        proof {
                            match orig[i_top] {
                                Event::Error(sm) => {
                                    assert(msg_view == sm@);
                                },
                                _ => {
                                    assert(false);
                                },
                            }
                            assert(spanv == if 0 <= c0 < toks.len() {
                                toks[c0].span
                            } else {
                                Span { start: 0, end: 0 }
                            });
                            step_diags = seq![(msg_view, spanv)];
                            assert(error_model(errors@) =~= errs_top.push((msg_view, spanv)));
                            assert(errs_top + step_diags =~= errs_top.push((msg_view, spanv)));
                            assert(orig[i as int] is Error);
                            assert(i >= 1) by {
                                if i == 0 {
                                    assert(is_live_start(orig[0]));
                                    assert(false);
                                }
                            }
                            assert(consumed_count(orig, i + 1) == consumed_count(orig, i as int));
                            assert(finish_count(orig, i + 1) == finish_count(orig, i as int));
                            assert(live_count(events@, i + 1) == live_count(events@, i as int));
                            lemma_last_is_fin(orig);
                            assert(i + 1 < orig.len());
                            assert(evs0[i_top] is Error);
                            assert(instrs_raw(instrs@) =~= ir0 + step_instrs);
                            assert(Seq::<(u16, u16, Seq<char>)>::empty() + flush_instrs(toks, c0)
                                =~= flush_instrs(toks, c0));
                            assert(linearize_spec(evs0, toks, i_top, c0) == step_instrs
                                + flush_instrs(toks, c0) + linearize_spec(
                                events@,
                                toks,
                                i_top + 1,
                                flush_end(toks, c0),
                            ));
                        }
                    } else {
                        // a finish event: close the innermost open node
                        proof {
                            assert(events@[i as int] == orig[i as int] || events@[i as int]
                                == crate::event::tombstone_spec());
                            assert(orig[i as int] is FinishNode);
                            assert(i >= 1) by {
                                if i == 0 {
                                    assert(is_live_start(orig[0]));
                                    assert(false);
                                }
                            }
                            lemma_mut_counts(orig, events@, i as int);
                            lemma_mut_live_range(orig, events@, i as int, orig.len() as int);
                            assert(log_opens(ir0, n0) - log_closes(ir0, n0) >= live_count(
                                orig,
                                i as int,
                            ) - finish_count(orig, i as int));
                        }
                        let ghost pre_instrs = instrs@;
                        let ghost pre_ir = instrs_raw(instrs@);
                        proof {
                            lemma_toks_bytes_monotone(toks, cursor as int, toks.len() as int);
                        }
                        builder_finish_node(&mut builder);
                        instrs.push(TreeInstr::FinishNode);
                        proof {
                            lemma_instrs_push(pre_instrs, TreeInstr::FinishNode);
                            lemma_log_push(pre_ir, (2u16, 0u16, Seq::<char>::empty()));
                            lemma_shape_push(pre_ir, (2u16, 0u16, Seq::<char>::empty()));
                            assert(instrs_raw(instrs@)[0] == pre_ir[0]);
                            step_instrs = seq![(2u16, 0u16, Seq::<char>::empty())];
                            assert(instrs_raw(instrs@) =~= ir0 + step_instrs);
                            assert(evs0[i_top] is FinishNode);
                            assert(linearize_spec(evs0, toks, i_top, c0) == step_instrs
                                + flush_instrs(toks, c0) + linearize_spec(
                                events@,
                                toks,
                                i_top + 1,
                                flush_end(toks, c0),
                            ));
                            assert(events@[i as int] == orig[i as int]);
                            assert(consumed_count(orig, i + 1) == consumed_count(orig, i as int));
                            assert(finish_count(orig, i + 1) == finish_count(orig, i as int) + 1);
                            assert(live_count(events@, i + 1) == live_count(events@, i as int));
                            if i + 1 == orig.len() {
                                assert(consumed_count(orig, i + 1) == sig_count(
                                    toksk,
                                    toks.len() as int,
                                ));
                                if cursor < toks.len() {
                                    assert(!toks[cursor as int].kind.is_trivia_spec());
                                    assert(toksk[cursor as int] == toks[cursor as int].kind);
                                    assert(sig_count(toksk, cursor + 1) == sig_count(
                                        toksk,
                                        cursor as int,
                                    ) + 1);
                                    lemma_sig_count_monotone(toksk, cursor + 1, toks.len() as int);
                                    assert(false);
                                }
                            }
                        }
                    }
                }
            }

            // flush trivia following the cursor into the tree
            i += 1;
            proof {
                if i < orig.len() {
                    lemma_mut_counts(orig, events@, i as int);
                    lemma_mut_live_range(orig, events@, i as int, orig.len() as int);
                    assert(log_opens(instrs_raw(instrs@), instrs@.len() as int) - log_closes(
                        instrs_raw(instrs@),
                        instrs@.len() as int,
                    ) >= live_count(orig, i as int) - finish_count(orig, i as int));
                    assert(finish_count(orig, i as int) + 1 <= live_count(orig, i as int));
                } else {
                    // the last significant token is consumed; no trivia can
                    // remain unflushed below
                }
            }
            let ghost c2 = cursor as int;
            let ghost errs_preflush = error_model(errors@);
            let ghost irpf = instrs_raw(instrs@);
            proof {
                assert(irpf == ir0 + step_instrs);
                assert(linearize_spec(evs0, toks, i_top, c0) == step_instrs + flush_instrs(
                    toks,
                    c2,
                ) + linearize_spec(events@, toks, i_top + 1, flush_end(toks, c2)));
                // the step's messages and cursor movement mirror the fold
                match orig[i_top] {
                    Event::AddToken { token_count, .. } => {
                        assert(c2 == c0 + token_count);
                        assert(step_diags == run_diags(toks, c0, token_count as int));
                    },
                    Event::Error(sm) => {
                        assert(c2 == c0);
                        let espan = if 0 <= c0 < toks.len() {
                            toks[c0].span
                        } else {
                            Span { start: 0, end: 0 }
                        };
                        assert(step_diags == seq![(sm@, espan)]);
                    },
                    _ => {
                        assert(c2 == c0);
                        assert(errs_preflush == errs_top);
                        assert(errs_top + step_diags =~= errs_top);
                    },
                }
                assert(errs_preflush == errs_top + step_diags);
                assert(diags_fold(orig, toks, i_top, c0) == step_diags + flush_diags(toks, c2)
                    + diags_fold(orig, toks, i_top + 1, flush_end(toks, c2)));
            }
            while cursor < tokens.len() && tokens[cursor].kind.is_trivia()
                invariant
                    toks == tokens@,
                    toksk == rk(toks),
                    0 <= cursor <= toks.len(),
                    sig_count(toksk, cursor as int) == consumed_count(orig, i as int),
                    builder_log(builder) == instrs_raw(instrs@),
                    log_opens(instrs_raw(instrs@), instrs@.len() as int) == live_count(
                        events@,
                        i as int,
                    ) + live_count(orig, orig.len() as int) - live_count(
                        events@,
                        orig.len() as int,
                    ),
                    log_closes(instrs_raw(instrs@), instrs@.len() as int) == finish_count(
                        orig,
                        i as int,
                    ),
                    forall|k: int|
                        0 < k < instrs@.len() ==> #[trigger] log_closes(instrs_raw(instrs@), k)
                            < log_opens(instrs_raw(instrs@), k),
                    instrs@.len() > 0 ==> instrs_raw(instrs@)[0].0 == 0,
                    instrs@.len() > 0,
                    log_text(instrs_raw(instrs@), instrs@.len() as int) == toks_text(
                        toks,
                        cursor as int,
                    ),
                    log_bytes(instrs_raw(instrs@), instrs@.len() as int) == toks_bytes(
                        toks,
                        cursor as int,
                    ),
                    toks_bytes(toks, toks.len() as int) <= u32::MAX,
                    forall|jj: int|
                        0 <= jj < toks.len() ==> #[trigger] token_span_ok(toks[jj]),
                    i >= 1,
                    i <= orig.len(),
                    events@.len() == orig.len(),
                    forall|j: int|
                        0 <= j < orig.len() ==> #[trigger] events@[j] == orig[j] || (events@[j]
                            == crate::event::tombstone_spec() && orig[j] is StartNode),
                    i < orig.len() ==> log_opens(instrs_raw(instrs@), instrs@.len() as int)
                        - log_closes(instrs_raw(instrs@), instrs@.len() as int) >= 1,
                    i == orig.len() ==> cursor == toks.len(),
                    errs_preflush + flush_diags(toks, c2) == error_model(errors@) + flush_diags(
                        toks,
                        cursor as int,
                    ),
                    flush_end(toks, c2) == flush_end(toks, cursor as int),
                    irpf + flush_instrs(toks, c2) == instrs_raw(instrs@) + flush_instrs(
                        toks,
                        cursor as int,
                    ),
                decreases toks.len() - cursor,
            {
                let t = &tokens[cursor];
                let ghost prec = cursor as int;
                let ghost errs_pre2 = error_model(errors@);
                handle_errors(&mut errors, t);
                proof {
                    assert(flush_diags(toks, prec) == lex_diags(toks[prec]) + flush_diags(
                        toks,
                        prec + 1,
                    ));
                    assert(errs_pre2 + (lex_diags(toks[prec]) + flush_diags(toks, prec + 1)) =~= (
                    errs_pre2 + lex_diags(toks[prec])) + flush_diags(toks, prec + 1));
                }
                let ghost pre_instrs = instrs@;
                let ghost pre_ir = instrs_raw(instrs@);
                let tk: SyntaxKind = crate::syntax_kind::SyntaxKind::from(t.kind);
                proof {
                    assert(toks_bytes(toks, cursor + 1) == toks_bytes(toks, cursor as int)
                        + text_bytes(toks[cursor as int].text@));
                    lemma_toks_bytes_monotone(toks, cursor + 1, toks.len() as int);
                }
                builder_token(&mut builder, RueLanguage::kind_to_raw(tk), t.text);
                instrs.push(TreeInstr::Token { kind: tk, text: String::from_str(t.text) });
                cursor = cursor + 1;
                proof {
                    lemma_instrs_push(pre_instrs, instrs@.last());
                    lemma_log_push(pre_ir, (1u16, crate::syntax_kind::kind_index(tk) as u16, t.text@));
                    lemma_shape_push(pre_ir, (1u16, crate::syntax_kind::kind_index(tk) as u16, t.text@));
                    assert(instrs_raw(instrs@)[0] == pre_ir[0]);
                    assert(flush_instrs(toks, prec) == seq![
                        (1u16, crate::syntax_kind::kind_index(tk) as u16, toks[prec].text@),
                    ] + flush_instrs(toks, prec + 1));
                    assert(pre_ir + (seq![
                        (1u16, crate::syntax_kind::kind_index(tk) as u16, toks[prec].text@),
                    ] + flush_instrs(toks, prec + 1)) =~= (pre_ir + seq![
                        (1u16, crate::syntax_kind::kind_index(tk) as u16, toks[prec].text@),
                    ]) + flush_instrs(toks, prec + 1));
                }
            }
            proof {
                // after the flush the running diagnostics equation is restored
                assert(flush_diags(toks, cursor as int) =~= Seq::<(Seq<char>, Span)>::empty());
                assert(flush_end(toks, cursor as int) == cursor as int);
                assert(error_model(errors@) + Seq::<(Seq<char>, Span)>::empty() =~= error_model(errors@));
                assert(error_model(errors@) == errs_preflush + flush_diags(toks, c2));
                let ff = diags_fold(orig, toks, i as int, cursor as int);
                assert(cursor as int == flush_end(toks, c2));
                assert(errs_top + ((step_diags + flush_diags(toks, c2)) + ff) =~= ((errs_top
                    + step_diags) + flush_diags(toks, c2)) + ff);
                assert(diags_fold(orig, toks, 0, 0) == error_model(errors@) + ff);
                // ... and so is the running linearization equation
                assert(flush_instrs(toks, cursor as int) =~= Seq::<(u16, u16, Seq<char>)>::empty());
                assert(instrs_raw(instrs@) + Seq::<(u16, u16, Seq<char>)>::empty() =~= instrs_raw(
                    instrs@,
                ));
                assert(instrs_raw(instrs@) == irpf + flush_instrs(toks, c2));
                let lf = linearize_spec(events@, toks, i as int, cursor as int);
                assert(ir0 + ((step_instrs + flush_instrs(toks, c2)) + lf) =~= ((ir0 + step_instrs)
                    + flush_instrs(toks, c2)) + lf);
                assert(step_instrs + (flush_instrs(toks, c2) + lf) =~= (step_instrs + flush_instrs(
                    toks,
                    c2,
                )) + lf);
                assert(linearize_spec(orig, toks, 0, 0) == instrs_raw(instrs@) + lf);
            }
        }

        proof {
            // at the end the instruction log forms a single finished tree
            lemma_mut_counts(orig, events@, orig.len() as int);
            lemma_mut_live_range(orig, events@, orig.len() as int, orig.len() as int);
            assert(log_opens(instrs_raw(instrs@), instrs@.len() as int) == live_count(
                orig,
                orig.len() as int,
            ));
            assert(log_closes(instrs_raw(instrs@), instrs@.len() as int) == finish_count(
                orig,
                orig.len() as int,
            ));
            assert(cursor == toks.len()) by {
                if cursor < toks.len() {
                    assert(!toks[cursor as int].kind.is_trivia_spec());
                    assert(sig_count(toksk, cursor + 1) == sig_count(toksk, cursor as int) + 1);
                    lemma_sig_count_monotone(toksk, cursor + 1, toks.len() as int);
                    assert(false);
                }
            }
            assert(log_tree_shape(instrs_raw(instrs@)));
            assert(diags_fold(orig, toks, orig.len() as int, cursor as int) =~= Seq::<(
                Seq<char>,
                Span,
            )>::empty());
            assert(error_model(errors@) + Seq::<(Seq<char>, Span)>::empty() =~= error_model(errors@));
            assert(error_model(errors@) == diags_fold(orig, toks, 0, 0));
            assert(linearize_spec(events@, toks, orig.len() as int, cursor as int) =~= Seq::<(
                u16,
                u16,
                Seq<char>,
            )>::empty());
            assert(instrs_raw(instrs@) + Seq::<(u16, u16, Seq<char>)>::empty() =~= instrs_raw(
                instrs@,
            ));
            assert(instrs_raw(instrs@) == linearize_spec(orig, toks, 0, 0));
        }

        proof {
            lemma_toks_bytes_monotone(toks, cursor as int, toks.len() as int);
        }
        let green_node = builder_finish(builder);
        Output { green_node, errors, instrs }
    }
}

/// A joint run: starting at a significant token, `k - 1` joint flags in a
/// row cover `k` consecutive significant raw tokens.
#[verifier::rlimit(100)]
pub proof fn lemma_joint_run(toks: Seq<Token>, joints: Seq<bool>, c: int, k: int)
    requires
        0 <= c < toks.len(),
        !toks[c].kind.is_trivia_spec(),
        k >= 1,
        forall|c2: int|
            0 <= c2 < toks.len() && !(#[trigger] toks[c2].kind).is_trivia_spec() && joints[sig_count(
                rk(toks),
                c2,
            )] ==> c2 + 1 < toks.len() && !toks[c2 + 1].kind.is_trivia_spec(),
        forall|m: int| 0 <= m < k - 1 ==> #[trigger] joints[sig_count(rk(toks), c) + m],
    ensures
        c + k <= toks.len(),
        forall|m: int| 0 <= m < k ==> !(#[trigger] toks[c + m].kind).is_trivia_spec(),
    decreases k,
{
    if k > 1 {
        assert(joints[sig_count(rk(toks), c) + 0]);
        assert(c + 1 < toks.len() && !toks[c + 1].kind.is_trivia_spec());
        assert(rk(toks)[c] == toks[c].kind);
        assert(sig_count(rk(toks), c + 1) == sig_count(rk(toks), c) + 1);
        assert forall|m: int| 0 <= m < k - 2 implies #[trigger] joints[sig_count(rk(toks), c + 1)
            + m] by {
            assert(joints[sig_count(rk(toks), c) + (m + 1)]);
        }
        lemma_joint_run(toks, joints, c + 1, k - 1);
        assert forall|m: int| 0 <= m < k implies !(#[trigger] toks[c + m].kind).is_trivia_spec() by {
            if m >= 1 {
                assert(!toks[c + 1 + (m - 1)].kind.is_trivia_spec());
            }
        }
    }
}

/// The parser's own invariants, together with what `from_tokens` guarantees
/// about the token view, give the linearizer everything it requires.
#[verifier::rlimit(100)]
pub proof fn lemma_sink_pre(
    evs: Seq<Event>,
    kinds: Seq<SyntaxKind>,
    joints: Seq<bool>,
    toks: Seq<Token>,
)
    requires
        toks_bytes(toks, toks.len() as int) <= u32::MAX,
        forall|j: int| 0 <= j < toks.len() ==> #[trigger] token_span_ok(toks[j]),
        evs.len() >= 1,
        is_live_start(evs[0]),
        fp_ok(evs),
        live_count(evs, evs.len() as int) == finish_count(evs, evs.len() as int),
        forall|k: int|
            0 < k < evs.len() ==> #[trigger] finish_count(evs, k) + 1 <= live_count(evs, k),
        crate::event::tok_ok(evs, kinds, joints),
        consumed_count(evs, evs.len() as int) == kinds.len(),
        kinds.len() == sig_count(rk(toks), toks.len() as int),
        forall|c2: int|
            0 <= c2 < toks.len() && !(#[trigger] toks[c2].kind).is_trivia_spec() && joints[sig_count(
                rk(toks),
                c2,
            )] ==> c2 + 1 < toks.len() && !toks[c2 + 1].kind.is_trivia_spec(),
    ensures
        sink_pre(evs, toks),
{
    assert forall|i: int| 0 <= i < evs.len() implies #[trigger] tok_count_pos(evs, i) by {
        assert(crate::event::tok_entry_ok(evs, i, kinds, joints));
    }
    assert forall|i: int, c: int|
        0 <= i < evs.len() && 0 <= c < toks.len() implies #[trigger] tok_sig_entry(
        evs,
        i,
        toks,
        c,
    ) by {
        assert(crate::event::tok_entry_ok(evs, i, kinds, joints));
        match evs[i] {
            Event::AddToken { token_count, .. } => {
                if !toks[c].kind.is_trivia_spec() && sig_count(rk(toks), c) == consumed_count(
                    evs,
                    i,
                ) {
                    let s = consumed_count(evs, i);
                    assert(token_count >= 1 && s + token_count <= kinds.len());
                    assert forall|m: int| 0 <= m < token_count - 1 implies #[trigger] joints[sig_count(
                        rk(toks),
                        c,
                    ) + m] by {
                        assert(joints[s + m]);
                    }
                    lemma_joint_run(toks, joints, c, token_count as int);
                }
            },
            _ => {},
        }
    }
}

/// Under the linearizer's precondition the last event is a finish: the
/// root node closes last.
proof fn lemma_last_is_fin(evs: Seq<Event>)
    requires
        evs.len() >= 1,
        is_live_start(evs[0]),
        live_count(evs, evs.len() as int) == finish_count(evs, evs.len() as int),
        forall|k: int|
            0 < k < evs.len() ==> #[trigger] finish_count(evs, k) + 1 <= live_count(evs, k),
    ensures
        evs[evs.len() - 1] is FinishNode,
{
    let ln = evs.len() as int;
    if !(evs[ln - 1] is FinishNode) {
        assert(finish_count(evs, ln) == finish_count(evs, ln - 1));
        lemma_counts_monotone(evs, ln - 1, ln);
        if ln == 1 {
            assert(live_count(evs, 1) == 1);
            assert(finish_count(evs, 1) == 0);
            assert(false);
        } else {
            assert(finish_count(evs, ln - 1) + 1 <= live_count(evs, ln - 1));
            assert(false);
        }
    }
}

/// Determinism of the replay: everything `finish` promises about an output
/// — its instruction stream (hence the tree's structure), its leaf text,
/// and its diagnostics with their messages and spans — is stated as an
/// equality with a function of the event log and the tokens alone, so two
/// replays of the same log over the same tokens produce structurally
/// identical trees and identical diagnostics.
pub proof fn lemma_replay_deterministic(
    evs1: Seq<Event>,
    evs2: Seq<Event>,
    toks1: Seq<Token>,
    toks2: Seq<Token>,
    o1: Output,
    o2: Output,
)
    requires
        evs1 == evs2,
        toks1 == toks2,
        instrs_raw(o1.instrs@) == linearize_spec(evs1, toks1, 0, 0),
        instrs_raw(o2.instrs@) == linearize_spec(evs2, toks2, 0, 0),
        error_model(o1.errors@) == diags_fold(evs1, toks1, 0, 0),
        error_model(o2.errors@) == diags_fold(evs2, toks2, 0, 0),
    ensures
        instrs_raw(o1.instrs@) == instrs_raw(o2.instrs@),
        error_model(o1.errors@) == error_model(o2.errors@),
        log_text(instrs_raw(o1.instrs@), o1.instrs@.len() as int) == log_text(
            instrs_raw(o2.instrs@),
            o2.instrs@.len() as int,
        ),
{
    assert(o1.instrs@.len() == instrs_raw(o1.instrs@).len());
    assert(o2.instrs@.len() == instrs_raw(o2.instrs@).len());
}

/// Number of non-tombstone kinds among the first `k` of a chain.
pub open spec fn nontomb_count(ks: Seq<SyntaxKind>, k: int) -> int
    decreases k,
{
    if k <= 0 {
        0
    } else {
        nontomb_count(ks, k - 1) + if ks[k - 1] != SyntaxKind::Tombstone {
            1int
        } else {
            0int
        }
    }
}

proof fn lemma_nontomb_congruence(a: Seq<SyntaxKind>, b: Seq<SyntaxKind>, k: int)
    requires
        forall|j: int| 0 <= j < k ==> a[j] == b[j],
    ensures
        nontomb_count(a, k) == nontomb_count(b, k),
    decreases k,
{
    if k > 0 {
        lemma_nontomb_congruence(a, b, k - 1);
    }
}

proof fn lemma_nontomb_step(ks: Seq<SyntaxKind>, j: int)
    requires
        0 <= j < ks.len(),
    ensures
        nontomb_count(ks, j + 1) == nontomb_count(ks, j) + if ks[j] != SyntaxKind::Tombstone {
            1int
        } else {
            0int
        },
{
}

/// Pushing one instruction extends the raw log by its raw form.
proof fn lemma_instrs_push(pre: Seq<TreeInstr>, x: TreeInstr)
    ensures
        instrs_raw(pre.push(x)) == instrs_raw(pre).push(instr_raw(x)),
{
    assert(instrs_raw(pre.push(x)) =~= instrs_raw(pre).push(instr_raw(x)));
}

} // verus!
