use vstd::prelude::*;
use vstd::string::StringExecFns;
use crate::event::{
    consumed_count, finish_count, fp_entry_ok, fp_ok, is_live_start, is_start, live_count,
    lemma_counts_congruence, lemma_counts_update, prefix_le, tok_entry_ok, tok_ok, tombstone_spec,
    Event,
};
use crate::input::Input;
use crate::kind_set::KindSet;
use crate::syntax_kind::{kind_name, kind_name_spec, SyntaxKind};
use crate::token::Token;

verus! {

/// The token count an `eat` of this kind consumes: composite operators are
/// scanned as two or three single-character tokens.
pub open spec fn tcount(kind: SyntaxKind) -> int {
    match kind {
        SyntaxKind::Arrow => 2,
        SyntaxKind::LessThanEquals => 2,
        SyntaxKind::GreaterThanEquals => 2,
        SyntaxKind::EqualTo => 2,
        SyntaxKind::NotEqual => 2,
        SyntaxKind::LeftShift => 2,
        SyntaxKind::RightShift => 2,
        SyntaxKind::UnsignedRightShift => 3,
        _ => 1,
    }
}

/// The token count `eat` consumes at the current position: the scanner
/// already fuses `->` into one token, so an arrow standing as one token
/// consumes one; every other composite consumes its parts.
pub open spec fn tcount_at(p: Parser, kind: SyntaxKind) -> int {
    if kind == SyntaxKind::Arrow && p.nth_spec(0) == SyntaxKind::Arrow {
        1
    } else {
        tcount(kind)
    }
}

/// A new event with the same start kind but a forward parent `d`.
pub open spec fn set_fp(e: Event, d: usize) -> Event {
    match e {
        Event::StartNode { kind, .. } => Event::StartNode { kind, forward_parent: Some(d) },
        _ => e,
    }
}

/// The log grew by an `Error` event carrying `msg`.
pub open spec fn pushed_error(old_evs: Seq<Event>, new_evs: Seq<Event>, msg: Seq<char>) -> bool {
    &&& new_evs.len() == old_evs.len() + 1
    &&& new_evs.subrange(0, old_evs.len() as int) == old_evs
    &&& match new_evs.last() {
        Event::Error(s) => s@ == msg,
        _ => false,
    }
}

/// The parser state: the trivia-free token view, a cursor into it, and the
/// event log built so far.  Markers are positions into that log.
pub struct Parser {
    input: Input,
    cursor: usize,
    events: Vec<Event>,
}

impl Parser {
    pub closed spec fn kinds(self) -> Seq<SyntaxKind> {
        self.input.kinds_seq()
    }

    pub closed spec fn joints(self) -> Seq<bool> {
        self.input.joint_seq()
    }

    pub closed spec fn cur(self) -> int {
        self.cursor as int
    }

    pub closed spec fn evs(self) -> Seq<Event> {
        self.events@
    }

    /// The parser's running invariant: the cursor counts exactly the tokens
    /// the log has consumed and never passes the end; every token event
    /// consumes tokens that exist (joint ones for composites); forward
    /// parents point forward at start events; and no prefix of the log
    /// closes more nodes than it has opened.
    pub open spec fn pwf(self) -> bool {
        &&& self.kinds().len() == self.joints().len()
        &&& 0 <= self.cur() <= self.kinds().len()
        &&& self.cur() == consumed_count(self.evs(), self.evs().len() as int)
        &&& tok_ok(self.evs(), self.kinds(), self.joints())
        &&& fp_ok(self.evs())
        &&& prefix_le(self.evs())
    }

    /// Lookahead: the kind `n` tokens ahead, `Eof` past the end.
    pub open spec fn nth_spec(self, n: int) -> SyntaxKind {
        if self.cur() + n < self.kinds().len() {
            self.kinds()[self.cur() + n]
        } else {
            SyntaxKind::Eof
        }
    }

    /// Whether the token `n` ahead is joint with its successor.
    pub open spec fn joint_spec(self, n: int) -> bool {
        let j = self.cur() + n;
        0 <= j < self.joints().len() && self.joints()[j]
    }

    pub open spec fn at2_spec(self, n: int, a: SyntaxKind, b: SyntaxKind) -> bool {
        self.nth_spec(n) == a && self.nth_spec(n + 1) == b && self.joint_spec(n)
    }

    pub open spec fn at3_spec(self, n: int, a: SyntaxKind, b: SyntaxKind, c: SyntaxKind) -> bool {
        self.nth_spec(n) == a && self.nth_spec(n + 1) == b && self.nth_spec(n + 2) == c
            && self.joint_spec(n) && self.joint_spec(n + 1)
    }

    /// Whether the parser is at `kind`, `n` tokens ahead: plain equality for
    /// single-token kinds, and for a composite operator the equality of its
    /// parts plus their joint-ness.
    pub open spec fn nth_at_spec(self, n: int, kind: SyntaxKind) -> bool {
        match kind {
            SyntaxKind::Arrow => self.nth_spec(n) == SyntaxKind::Arrow || self.at2_spec(
                n,
                SyntaxKind::Minus,
                SyntaxKind::GreaterThan,
            ),
            SyntaxKind::LessThanEquals => self.at2_spec(
                n,
                SyntaxKind::LessThan,
                SyntaxKind::Equals,
            ),
            SyntaxKind::GreaterThanEquals => self.at2_spec(
                n,
                SyntaxKind::GreaterThan,
                SyntaxKind::Equals,
            ),
            SyntaxKind::EqualTo => self.at2_spec(n, SyntaxKind::Equals, SyntaxKind::Equals),
            SyntaxKind::NotEqual => self.at2_spec(n, SyntaxKind::Exclamation, SyntaxKind::Equals),
            SyntaxKind::LeftShift => self.at2_spec(n, SyntaxKind::LessThan, SyntaxKind::LessThan),
            SyntaxKind::RightShift => self.at2_spec(
                n,
                SyntaxKind::GreaterThan,
                SyntaxKind::GreaterThan,
            ),
            SyntaxKind::UnsignedRightShift => self.at3_spec(
                n,
                SyntaxKind::GreaterThan,
                SyntaxKind::GreaterThan,
                SyntaxKind::GreaterThan,
            ),
            _ => self.nth_spec(n) == kind,
        }
    }

    pub fn new(input: Input) -> (r: Parser)
        requires
            input.kinds_seq().len() == input.joint_seq().len(),
        ensures
            r.pwf(),
            r.kinds() == input.kinds_seq(),
            r.joints() == input.joint_seq(),
            r.cur() == 0,
            r.evs() == Seq::<Event>::empty(),
    {
        let r = Parser { input, cursor: 0, events: Vec::new() };
        proof {
            assert(r.evs() =~= Seq::<Event>::empty());
        }
        r
    }

    /// The cursor: how many significant tokens have been consumed.
    pub fn position(&self) -> (r: usize)
        ensures
            r == self.cur(),
    {
        self.cursor
    }

    /// Hand the finished event log over for linearization.
    pub fn finish(self) -> (r: Vec<Event>)
        ensures
            r@ == self.evs(),
    {
        self.events
    }

    /// Lookahead `n` tokens past trivia; `Eof` past the end.
    pub fn nth(&self, n: usize) -> (r: SyntaxKind)
        requires
            self.pwf(),
        ensures
            r == self.nth_spec(n as int),
    {
        let total = self.input.len();
        match self.cursor.checked_add(n) {
            Some(i) => self.input.kind(i),
            None => {
                proof {
                    assert(self.cur() + n > usize::MAX >= total);
                }
                SyntaxKind::Eof
            },
        }
    }

    /// The current token's kind; `Eof` at the end.
    pub fn peek(&self) -> (r: SyntaxKind)
        requires
            self.pwf(),
        ensures
            r == self.nth_spec(0),
    {
        self.nth(0)
    }

    pub fn at(&self, kind: SyntaxKind) -> (r: bool)
        requires
            self.pwf(),
        ensures
            r == self.nth_at_spec(0, kind),
    {
        self.nth_at(0, kind)
    }

    /// Composite operators are recognized only when their parts are joint.
    pub fn nth_at(&self, n: usize, kind: SyntaxKind) -> (r: bool)
        requires
            self.pwf(),
        ensures
            r == self.nth_at_spec(n as int, kind),
    {
        match kind {
            SyntaxKind::Arrow => self.nth(n) == SyntaxKind::Arrow || self.at_composite2(
                n,
                SyntaxKind::Minus,
                SyntaxKind::GreaterThan,
            ),
            SyntaxKind::LessThanEquals => self.at_composite2(
                n,
                SyntaxKind::LessThan,
                SyntaxKind::Equals,
            ),
            SyntaxKind::GreaterThanEquals => self.at_composite2(
                n,
                SyntaxKind::GreaterThan,
                SyntaxKind::Equals,
            ),
            SyntaxKind::EqualTo => self.at_composite2(n, SyntaxKind::Equals, SyntaxKind::Equals),
            SyntaxKind::NotEqual => self.at_composite2(
                n,
                SyntaxKind::Exclamation,
                SyntaxKind::Equals,
            ),
            SyntaxKind::LeftShift => self.at_composite2(
                n,
                SyntaxKind::LessThan,
                SyntaxKind::LessThan,
            ),
            SyntaxKind::RightShift => self.at_composite2(
                n,
                SyntaxKind::GreaterThan,
                SyntaxKind::GreaterThan,
            ),
            SyntaxKind::UnsignedRightShift => self.at_composite3(
                n,
                SyntaxKind::GreaterThan,
                SyntaxKind::GreaterThan,
                SyntaxKind::GreaterThan,
            ),
            _ => self.nth(n) == kind,
        }
    }

    pub fn at_set(&self, kinds: KindSet) -> (r: bool)
        requires
            self.pwf(),
        ensures
            r == kinds.has(self.nth_spec(0)),
    {
        kinds.contains(self.peek())
    }

    fn at_composite2(&self, n: usize, a: SyntaxKind, b: SyntaxKind) -> (r: bool)
        requires
            self.pwf(),
        ensures
            r == self.at2_spec(n as int, a, b),
    {
        self.nth(n) == a && self.nth_add(n, 1) == b && self.joint_at(n)
    }

    fn at_composite3(&self, n: usize, a: SyntaxKind, b: SyntaxKind, c: SyntaxKind) -> (r: bool)
        requires
            self.pwf(),
        ensures
            r == self.at3_spec(n as int, a, b, c),
    {
        self.nth(n) == a && self.nth_add(n, 1) == b && self.nth_add(n, 2) == c && self.joint_at(n)
            && self.joint_at_add(n, 1)
    }

    /// Lookahead at `n + extra`, saturating rather than overflowing.
    fn nth_add(&self, n: usize, extra: usize) -> (r: SyntaxKind)
        requires
            self.pwf(),
        ensures
            r == self.nth_spec(n as int + extra),
    {
        match n.checked_add(extra) {
            Some(m) => self.nth(m),
            None => {
                proof {
                    assert(self.cur() + n + extra >= n + extra > usize::MAX >= self.kinds().len())
                        by {
                        lemma_kinds_len_bound(*self);
                    }
                }
                SyntaxKind::Eof
            },
        }
    }

    fn joint_at(&self, n: usize) -> (r: bool)
        requires
            self.pwf(),
        ensures
            r == self.joint_spec(n as int),
    {
        let total = self.input.len();
        match self.cursor.checked_add(n) {
            Some(i) => self.input.is_joint(i),
            None => {
                proof {
                    assert(self.cur() + n > usize::MAX >= total);
                }
                false
            },
        }
    }

    fn joint_at_add(&self, n: usize, extra: usize) -> (r: bool)
        requires
            self.pwf(),
        ensures
            r == self.joint_spec(n as int + extra),
    {
        match n.checked_add(extra) {
            Some(m) => self.joint_at(m),
            None => {
                proof {
                    assert(self.cur() + n + extra >= n + extra > usize::MAX >= self.joints().len())
                        by {
                        lemma_kinds_len_bound(*self);
                    }
                }
                false
            },
        }
    }

    /// Append a token event and advance the cursor past what it consumed.
    pub fn add_token(&mut self, kind: SyntaxKind, token_count: usize)
        requires
            old(self).pwf(),
            token_count >= 1,
            old(self).cur() + token_count <= old(self).kinds().len(),
            forall|m: int|
                0 <= m < token_count - 1 ==> #[trigger] old(self).joints()[old(self).cur() + m],
        ensures
            final(self).pwf(),
            final(self).kinds() == old(self).kinds(),
            final(self).joints() == old(self).joints(),
            final(self).evs() == old(self).evs().push(
                Event::AddToken { kind, token_count },
            ),
            final(self).cur() == old(self).cur() + token_count,
    {
        let ghost pre = *self;
        let n = self.input.len();
        self.cursor = self.cursor + token_count;
        self.events.push(Event::AddToken { kind, token_count });
        proof {
            let e = Event::AddToken { kind, token_count };
            let evs = pre.evs();
            let evs2 = self.evs();
            assert(evs2 == evs.push(e));
            lemma_push_wf(evs, e, pre.kinds(), pre.joints());
            assert(consumed_count(evs2, evs2.len() as int) == consumed_count(evs, evs.len() as int)
                + token_count);
            assert(tok_entry_ok(evs2, evs.len() as int, pre.kinds(), pre.joints()));
        }
    }

    /// Consume whatever the current token is; no-op at end of input.
    pub fn bump_any(&mut self)
        requires
            old(self).pwf(),
        ensures
            final(self).pwf(),
            final(self).kinds() == old(self).kinds(),
            final(self).joints() == old(self).joints(),
            old(self).nth_spec(0) == SyntaxKind::Eof ==> *final(self) == *old(self),
            old(self).nth_spec(0) != SyntaxKind::Eof ==> final(self).evs() == old(self).evs().push(
                Event::AddToken { kind: old(self).nth_spec(0), token_count: 1 },
            ) && final(self).cur() == old(self).cur() + 1,
    {
        let kind = self.nth(0);
        if kind == SyntaxKind::Eof {
            return ;
        }
        proof {
            assert(old(self).cur() < old(self).kinds().len());
        }
        self.add_token(kind, 1);
    }

    /// Consume `kind` if the parser is at it; composites advance by their
    /// full token count.
    pub fn eat(&mut self, kind: SyntaxKind) -> (r: bool)
        requires
            old(self).pwf(),
            kind != SyntaxKind::Eof,
        ensures
            final(self).pwf(),
            final(self).kinds() == old(self).kinds(),
            final(self).joints() == old(self).joints(),
            r == old(self).nth_at_spec(0, kind),
            !old(self).nth_at_spec(0, kind) ==> *final(self) == *old(self),
            old(self).nth_at_spec(0, kind) ==> final(self).evs() == old(self).evs().push(
                Event::AddToken { kind, token_count: tcount_at(*old(self), kind) as usize },
            ) && final(self).cur() == old(self).cur() + tcount_at(*old(self), kind),
    {
        if !self.at(kind) {
            return false;
        }
        let token_count: usize = match kind {
            SyntaxKind::Arrow => if self.nth(0) == SyntaxKind::Arrow {
                1
            } else {
                2
            },
            SyntaxKind::LessThanEquals => 2,
            SyntaxKind::GreaterThanEquals => 2,
            SyntaxKind::EqualTo => 2,
            SyntaxKind::NotEqual => 2,
            SyntaxKind::LeftShift => 2,
            SyntaxKind::RightShift => 2,
            SyntaxKind::UnsignedRightShift => 3,
            _ => 1,
        };
        self.add_token(kind, token_count);
        true
    }

    /// Consume `kind`; the grammar must already have checked it is present.
    pub fn bump(&mut self, kind: SyntaxKind)
        requires
            old(self).pwf(),
            kind != SyntaxKind::Eof,
            old(self).nth_at_spec(0, kind),
        ensures
            final(self).pwf(),
            final(self).kinds() == old(self).kinds(),
            final(self).joints() == old(self).joints(),
            final(self).evs() == old(self).evs().push(
                Event::AddToken { kind, token_count: tcount_at(*old(self), kind) as usize },
            ),
            final(self).cur() == old(self).cur() + tcount_at(*old(self), kind),
    {
        let ate = self.eat(kind);
        proof {
            assert(ate);
        }
    }

    /// Record a diagnostic without consuming input.
    pub fn error(&mut self, message: String)
        requires
            old(self).pwf(),
        ensures
            final(self).pwf(),
            final(self).kinds() == old(self).kinds(),
            final(self).joints() == old(self).joints(),
            final(self).evs() == old(self).evs().push(Event::Error(message)),
            final(self).cur() == old(self).cur(),
    {
        let ghost pre = *self;
        let ghost e = Event::Error(message);
        proof {
            lemma_push_wf(pre.evs(), e, pre.kinds(), pre.joints());
        }
        self.events.push(Event::Error(message));
    }

    /// Consume `kind` if present; otherwise record `expected <kind>` and
    /// stay put.
    pub fn expect(&mut self, kind: SyntaxKind) -> (r: bool)
        requires
            old(self).pwf(),
            kind != SyntaxKind::Eof,
        ensures
            final(self).pwf(),
            final(self).kinds() == old(self).kinds(),
            final(self).joints() == old(self).joints(),
            r == old(self).nth_at_spec(0, kind),
            old(self).nth_at_spec(0, kind) ==> final(self).evs() == old(self).evs().push(
                Event::AddToken { kind, token_count: tcount_at(*old(self), kind) as usize },
            ) && final(self).cur() == old(self).cur() + tcount_at(*old(self), kind),
            !old(self).nth_at_spec(0, kind) ==> pushed_error(
                old(self).evs(),
                final(self).evs(),
                "expected "@ + kind_name_spec(kind),
            ) && final(self).cur() == old(self).cur(),
    {
        if self.eat(kind) {
            return true;
        }
        let mut message = String::from_str("expected ");
        message.append(kind_name(kind));
        let ghost msg_view = message@;
        self.error(message);
        proof {
            assert(self.evs().subrange(0, old(self).evs().len() as int) =~= old(self).evs());
        }
        false
    }

    /// Open a node here; its kind is decided later by `complete`, or the
    /// node is dropped again by `abandon`.
    pub fn start(&mut self) -> (m: Marker)
        requires
            old(self).pwf(),
        ensures
            final(self).pwf(),
            final(self).kinds() == old(self).kinds(),
            final(self).joints() == old(self).joints(),
            final(self).evs() == old(self).evs().push(tombstone_spec()),
            final(self).cur() == old(self).cur(),
            m.pos_spec() == old(self).evs().len(),
    {
        let ghost pre = *self;
        proof {
            lemma_push_wf(pre.evs(), tombstone_spec(), pre.kinds(), pre.joints());
        }
        let pos = self.events.len();
        self.events.push(Event::tombstone());
        Marker::new(pos)
    }

    /// The recovery policy: at a closing brace or a recovery-set token the
    /// error is recorded and nothing is consumed (the token is a terminator
    /// some enclosing production needs); otherwise one bogus token is
    /// wrapped in an `Error` node, so progress is guaranteed.
    pub fn err_recover(&mut self, message: &str, recovery: KindSet)
        requires
            old(self).pwf(),
        ensures
            final(self).pwf(),
            final(self).kinds() == old(self).kinds(),
            final(self).joints() == old(self).joints(),
            ({
                let k0 = old(self).nth_spec(0);
                if k0 == SyntaxKind::CloseBrace || recovery.has(k0) {
                    pushed_error(old(self).evs(), final(self).evs(), message@) && final(self).cur()
                        == old(self).cur()
                } else if k0 != SyntaxKind::Eof {
                    err_node_seg(old(self).evs(), final(self).evs(), message@, Some(k0))
                        && final(self).cur() == old(self).cur() + 1
                } else {
                    err_node_seg(old(self).evs(), final(self).evs(), message@, None)
                        && final(self).cur() == old(self).cur()
                }
            }),
    {
        if self.at(SyntaxKind::CloseBrace) {
            self.error(String::from_str(message));
            proof {
                assert(self.evs().subrange(0, old(self).evs().len() as int) =~= old(self).evs());
            }
            return ;
        }
        if self.at_set(recovery) {
            self.error(String::from_str(message));
            proof {
                assert(self.evs().subrange(0, old(self).evs().len() as int) =~= old(self).evs());
            }
            return ;
        }

        let m = self.start();
        self.error(String::from_str(message));
        self.bump_any();
        m.complete(self, SyntaxKind::Error);
        proof {
            assert(self.evs().subrange(0, old(self).evs().len() as int) =~= old(self).evs());
        }
    }
}

/// The log grew by a whole `Error`-kinded node: its start, the diagnostic,
/// the one bogus token it wraps (when input was left), and its finish.
pub open spec fn err_node_seg(
    old_evs: Seq<Event>,
    new_evs: Seq<Event>,
    msg: Seq<char>,
    consumed: Option<SyntaxKind>,
) -> bool {
    let n = old_evs.len() as int;
    &&& new_evs.subrange(0, n) == old_evs
    &&& new_evs[n] == (Event::StartNode { kind: SyntaxKind::Error, forward_parent: None })
    &&& (match new_evs[n + 1] {
        Event::Error(s) => s@ == msg,
        _ => false,
    })
    &&& match consumed {
        Some(k) => new_evs.len() == n + 4 && new_evs[n + 2] == (Event::AddToken {
            kind: k,
            token_count: 1,
        }) && new_evs[n + 3] == Event::FinishNode,
        None => new_evs.len() == n + 3 && new_evs[n + 2] == Event::FinishNode,
    }
}

/// Linearize this parser's finished event log against the raw tokens it
/// was built from.
impl Parser {
    pub fn parse(self, tokens: &[Token]) -> (out: crate::output::Output)
        requires
            crate::sink::sink_pre(self.evs(), tokens@),
        ensures
            crate::tree::log_tree_shape(crate::output::instrs_raw(out.instrs@)),
            crate::output::log_text(
                crate::output::instrs_raw(out.instrs@),
                out.instrs@.len() as int,
            ) == crate::sink::toks_text(tokens@, tokens@.len() as int),
            crate::sink::error_model(out.errors@) == crate::sink::diags_fold(
                self.evs(),
                tokens@,
                0,
                0,
            ),
            crate::output::instrs_raw(out.instrs@) == crate::sink::linearize_spec(
                self.evs(),
                tokens@,
                0,
                0,
            ),
    {
        crate::sink::Sink::new(self.finish(), tokens).finish()
    }

    /// The parser entry point: adapt the raw tokens, run the grammar from
    /// the root, and linearize the event log.  The resulting instruction
    /// sequence is one strictly well-nested tree whose leaves concatenate
    /// to exactly the concatenation of all raw token texts: no input is
    /// lost, whatever the input was.  Tree and diagnostics are both exact
    /// replays of one well-shaped event log whose outermost node is `Root`.
    #[verifier::rlimit(100)]
    pub fn parse_tokens(tokens: &[Token]) -> (out: crate::output::Output)
        requires
            crate::sink::toks_bytes(tokens@, tokens@.len() as int) <= u32::MAX,
            forall|j: int|
                0 <= j < tokens@.len() ==> #[trigger] crate::sink::token_span_ok(tokens@[j]),
        ensures
            crate::tree::log_tree_shape(crate::output::instrs_raw(out.instrs@)),
            crate::output::log_text(
                crate::output::instrs_raw(out.instrs@),
                out.instrs@.len() as int,
            ) == crate::sink::toks_text(tokens@, tokens@.len() as int),
            exists|evs: Seq<Event>|
                {
                    &&& #[trigger] crate::grammar::root_log_ok(evs)
                    &&& evs[0] == (Event::StartNode {
                        kind: SyntaxKind::Root,
                        forward_parent: None,
                    })
                    &&& crate::output::instrs_raw(out.instrs@) == crate::sink::linearize_spec(
                        evs,
                        tokens@,
                        0,
                        0,
                    )
                    &&& crate::sink::error_model(out.errors@) == crate::sink::diags_fold(
                        evs,
                        tokens@,
                        0,
                        0,
                    )
                },
    {
        let input = Input::from_tokens(tokens);
        let ghost raw = crate::token::rk(tokens@);
        let mut parser = Parser::new(input);
        proof {
            assert forall|j: int|
                0 <= j < parser.kinds().len() implies parser.kinds()[j] != SyntaxKind::Eof by {
                crate::input::lemma_sig_surjective(raw, j);
                let c = choose|c: int|
                    0 <= c < raw.len() && !(#[trigger] raw[c]).is_trivia_spec() && crate::input::sig_count(
                        raw,
                        c,
                    ) == j;
                assert(parser.kinds()[j] == crate::syntax_kind::syntax_kind_of(raw[c]));
            }
        }
        let _cm = crate::grammar::root(&mut parser);
        proof {
            assert forall|c2: int|
                0 <= c2 < tokens@.len() && !(#[trigger] tokens@[c2].kind).is_trivia_spec()
                    && parser.joints()[crate::input::sig_count(raw, c2)] implies c2 + 1
                < tokens@.len() && !tokens@[c2 + 1].kind.is_trivia_spec() by {
                assert(raw[c2] == tokens@[c2].kind);
            }
            crate::sink::lemma_sink_pre(parser.evs(), parser.kinds(), parser.joints(), tokens@);
        }
        let ghost evs_built = parser.evs();
        let out = parser.parse(tokens);
        proof {
            assert(crate::grammar::root_log_ok(evs_built));
        }
        out
    }
}

/// The whole pipeline as one pure function from source text to tree and
/// diagnostics: scan, parse, linearize.  Losslessness end to end: the
/// leaves of the produced tree concatenate back to the source, byte for
/// byte, including whitespace, comments, and error-recovered fragments.
/// The external tree service stores 32-bit text sizes, so the source must
/// stay within that machine limit.
pub fn parse_text(source: &str) -> (out: crate::output::Output)
    requires
        crate::tree::text_bytes(source@) <= u32::MAX,
    ensures
        crate::tree::log_tree_shape(crate::output::instrs_raw(out.instrs@)),
        crate::output::log_text(crate::output::instrs_raw(out.instrs@), out.instrs@.len() as int)
            == source@,
        exists|evs: Seq<Event>, toks: Seq<Token>|
            {
                &&& #[trigger] crate::grammar::root_log_ok(evs)
                &&& evs[0] == (Event::StartNode { kind: SyntaxKind::Root, forward_parent: None })
                &&& crate::lexer::concat_texts(toks) == source@
                &&& crate::output::instrs_raw(out.instrs@) == #[trigger] crate::sink::linearize_spec(
                    evs,
                    toks,
                    0,
                    0,
                )
                &&& crate::sink::error_model(out.errors@) == crate::sink::diags_fold(
                    evs,
                    toks,
                    0,
                    0,
                )
            },
{
    let tokens = crate::lexer::tokenize(source);
    proof {
        crate::sink::lemma_toks_bytes_is_concat(tokens@);
        // every scanned token's byte span covers its character count
        assert forall|j: int|
            0 <= j < tokens@.len() implies #[trigger] crate::sink::token_span_ok(
            tokens@[j],
        ) by {
            let cs = crate::lexer::tokens_spec(source@, 0)[j].1;
            let ce = crate::lexer::tokens_spec(source@, 0)[j].2;
            crate::lexer::lemma_tokens_spec_bounds(source@, 0, j);
            assert(source@.subrange(0, ce) =~= source@.subrange(0, cs) + source@.subrange(cs, ce));
            crate::lexer::lemma_encode_utf8_concat(
                source@.subrange(0, cs),
                source@.subrange(cs, ce),
            );
            crate::lexer::lemma_encode_utf8_len_lower(source@.subrange(cs, ce));
        }
    }
    let out = Parser::parse_tokens(tokens.as_slice());
    proof {
        crate::sink::lemma_toks_text_is_concat(tokens@);
        let evs_w = choose|evs: Seq<Event>|
            {
                &&& #[trigger] crate::grammar::root_log_ok(evs)
                &&& evs[0] == (Event::StartNode { kind: SyntaxKind::Root, forward_parent: None })
                &&& crate::output::instrs_raw(out.instrs@) == crate::sink::linearize_spec(
                    evs,
                    tokens@,
                    0,
                    0,
                )
                &&& crate::sink::error_model(out.errors@) == crate::sink::diags_fold(
                    evs,
                    tokens@,
                    0,
                    0,
                )
            };
        assert(crate::grammar::root_log_ok(evs_w) && crate::lexer::concat_texts(tokens@)
            == source@ && crate::output::instrs_raw(out.instrs@)
            == crate::sink::linearize_spec(evs_w, tokens@, 0, 0));
    }
    out
}

/// `nth_at_spec` depends only on the cursor and the token view.
pub proof fn lemma_nth_at_congruence(a: Parser, b: Parser, n: int, kind: SyntaxKind)
    requires
        a.cur() == b.cur(),
        a.kinds() == b.kinds(),
        a.joints() == b.joints(),
    ensures
        a.nth_at_spec(n, kind) == b.nth_at_spec(n, kind),
{
    assert forall|j: int| a.nth_spec(j) == b.nth_spec(j) by {}
    assert forall|j: int| a.joint_spec(j) == b.joint_spec(j) by {}
}

/// The token view is held in vectors, so its length fits in a `usize`.
proof fn lemma_kinds_len_bound(p: Parser)
    requires
        p.pwf(),
    ensures
        p.kinds().len() <= usize::MAX,
        p.joints().len() <= usize::MAX,
{
    p.input.lemma_len_bound();
}

/// Pushing a non-finish, non-resolved event onto a well-formed log keeps it
/// well formed; a token event must additionally respect the input bounds.
proof fn lemma_push_wf(evs: Seq<Event>, e: Event, kinds: Seq<SyntaxKind>, joints: Seq<bool>)
    requires
        tok_ok(evs, kinds, joints),
        fp_ok(evs),
        prefix_le(evs),
        !(e is FinishNode),
        !is_live_start(e),
        e is StartNode ==> e == tombstone_spec(),
        match e {
            Event::AddToken { token_count, .. } => {
                &&& token_count >= 1
                &&& consumed_count(evs, evs.len() as int) + token_count <= kinds.len()
                &&& kinds.len() == joints.len()
                &&& forall|m: int|
                    0 <= m < token_count - 1 ==> #[trigger] joints[consumed_count(
                        evs,
                        evs.len() as int,
                    ) + m]
            },
            _ => true,
        },
    ensures
        tok_ok(evs.push(e), kinds, joints),
        fp_ok(evs.push(e)),
        prefix_le(evs.push(e)),
        consumed_count(evs.push(e), evs.len() as int + 1) == consumed_count(evs, evs.len() as int)
            + (match e {
            Event::AddToken { token_count, .. } => token_count as int,
            _ => 0int,
        }),
{
    let evs2 = evs.push(e);
    assert forall|j: int| 0 <= j < evs.len() implies evs2[j] == evs[j] by {}
    lemma_counts_congruence(evs2, evs, evs.len() as int);
    assert forall|i: int| 0 <= i < evs2.len() implies #[trigger] tok_entry_ok(
        evs2,
        i,
        kinds,
        joints,
    ) by {
        lemma_counts_congruence(evs2, evs, i);
        if i < evs.len() {
            assert(tok_entry_ok(evs, i, kinds, joints));
        }
    }
    assert forall|i: int| 0 <= i < evs2.len() implies #[trigger] fp_entry_ok(evs2, i) by {
        if i < evs.len() {
            assert(fp_entry_ok(evs, i));
        }
    }
    assert forall|k: int| 0 <= k <= evs2.len() implies #[trigger] finish_count(evs2, k)
        <= live_count(evs2, k) by {
        if k <= evs.len() {
            lemma_counts_congruence(evs2, evs, k);
            assert(finish_count(evs, k) <= live_count(evs, k));
        } else {
            lemma_counts_congruence(evs2, evs, evs.len() as int);
            assert(finish_count(evs, evs.len() as int) <= live_count(evs, evs.len() as int));
        }
    }
}

/// Relies on drop_bomb::DropBomb: a guard that panics when dropped armed;
/// every marker is defused exactly when it is completed or abandoned.
#[verifier::external_type_specification]
#[verifier::external_body]
pub struct ExDropBomb(drop_bomb::DropBomb);

/// Relies on drop_bomb::DropBomb::new: returns an armed guard.
#[verifier::external_body]
fn new_bomb() -> drop_bomb::DropBomb {
    drop_bomb::DropBomb::new("Marker must be either completed or abandoned")
}

/// Relies on drop_bomb::DropBomb::defuse: disarms the guard, after which
/// dropping it is harmless.
#[verifier::external_body]
fn defuse_bomb(b: &mut drop_bomb::DropBomb) {
    b.defuse()
}

/// An open node: a position into the event log whose placeholder start
/// event still awaits its kind.  The one-shot obligation to `complete` or
/// `abandon` it is guarded at run time by the drop bomb.
pub struct Marker {
    pos: usize,
    bomb: drop_bomb::DropBomb,
}

impl Marker {
    /// The log position of the placeholder this marker owns.
    pub closed spec fn pos_spec(self) -> int {
        self.pos as int
    }

    pub fn new(pos: usize) -> (m: Marker)
        ensures
            m.pos_spec() == pos,
    {
        Marker { pos, bomb: new_bomb() }
    }

    /// Resolve the node's kind and close it.
    pub fn complete(self, p: &mut Parser, kind: SyntaxKind) -> (cm: CompletedMarker)
        requires
            old(p).pwf(),
            self.pos_spec() < old(p).evs().len(),
            old(p).evs()[self.pos_spec()] == tombstone_spec(),
            kind != SyntaxKind::Tombstone,
        ensures
            final(p).pwf(),
            final(p).kinds() == old(p).kinds(),
            final(p).joints() == old(p).joints(),
            final(p).evs() == old(p).evs().update(
                self.pos_spec(),
                Event::StartNode { kind, forward_parent: None },
            ).push(Event::FinishNode),
            final(p).cur() == old(p).cur(),
            cm.pos_spec() == self.pos_spec(),
            cm.kind_spec() == kind,
    {
        let mut this = self;
        defuse_bomb(&mut this.bomb);
        let ghost pre = *p;
        let idx = this.pos;
        let fp: Option<usize> = match &p.events[idx] {
            Event::StartNode { forward_parent, .. } => *forward_parent,
            _ => None,
        };
        p.events[idx] = Event::StartNode { kind, forward_parent: fp };
        p.events.push(Event::FinishNode);
        proof {
            let evs = pre.evs();
            let len = evs.len() as int;
            let e = Event::StartNode { kind, forward_parent: None };
            let up = evs.update(idx as int, e);
            assert(p.evs() == up.push(Event::FinishNode));
            lemma_counts_update(evs, idx as int, e, len);
            lemma_counts_congruence(up.push(Event::FinishNode), up, len);
            // consumed total: the update leaves it, the finish adds none
            assert(consumed_count(p.evs(), len + 1) == consumed_count(evs, len));
            // token events: unchanged entries over unchanged consumed prefixes
            assert forall|i: int| 0 <= i < p.evs().len() implies #[trigger] tok_entry_ok(
                p.evs(),
                i,
                pre.kinds(),
                pre.joints(),
            ) by {
                lemma_counts_update(evs, idx as int, e, i);
                lemma_counts_congruence(up.push(Event::FinishNode), up, i);
                if i < len && i != idx {
                    assert(tok_entry_ok(evs, i, pre.kinds(), pre.joints()));
                    assert(p.evs()[i] == evs[i]);
                }
            }
            assert forall|i: int| 0 <= i < p.evs().len() implies #[trigger] fp_entry_ok(
                p.evs(),
                i,
            ) by {
                if i < len && i != idx {
                    assert(fp_entry_ok(evs, i));
                    assert(p.evs()[i] == evs[i]);
                    match evs[i] {
                        Event::StartNode { forward_parent: Some(d), .. } => {
                            assert(is_start(evs[i + d]));
                            assert(is_start(p.evs()[i + d]));
                        },
                        _ => {},
                    }
                }
            }
            assert forall|k: int| 0 <= k <= p.evs().len() implies #[trigger] finish_count(
                p.evs(),
                k,
            ) <= live_count(p.evs(), k) by {
                if k <= len {
                    lemma_counts_congruence(p.evs(), up, k);
                    lemma_counts_update(evs, idx as int, e, k);
                    assert(finish_count(evs, k) <= live_count(evs, k));
                } else {
                    lemma_counts_congruence(p.evs(), up, len);
                    lemma_counts_update(evs, idx as int, e, len);
                    assert(finish_count(evs, len) <= live_count(evs, len));
                }
            }
        }
        CompletedMarker::new(this.pos, kind)
    }

    /// Drop the still-open node: if nothing was written after its
    /// placeholder the placeholder is removed, otherwise it stays behind as
    /// a tombstone that linearization skips.
    pub fn abandon(self, p: &mut Parser)
        requires
            old(p).pwf(),
            self.pos_spec() < old(p).evs().len(),
            old(p).evs()[self.pos_spec()] == tombstone_spec(),
            self.pos_spec() == old(p).evs().len() - 1 ==> forall|i: int|
                0 <= i < self.pos_spec() ==> !fp_points_at(old(p).evs(), i, self.pos_spec()),
        ensures
            final(p).pwf(),
            final(p).kinds() == old(p).kinds(),
            final(p).joints() == old(p).joints(),
            final(p).cur() == old(p).cur(),
            self.pos_spec() == old(p).evs().len() - 1 ==> final(p).evs() == old(p).evs().drop_last(),
            self.pos_spec() != old(p).evs().len() - 1 ==> final(p).evs() == old(p).evs(),
    {
        let mut this = self;
        defuse_bomb(&mut this.bomb);
        let ghost pre = *p;
        let idx = this.pos;
        if idx == p.events.len() - 1 {
            let popped = p.events.pop();
            proof {
                let evs = pre.evs();
                let len = evs.len() as int;
                assert(p.evs() =~= evs.drop_last());
                lemma_counts_congruence(evs, p.evs(), len - 1);
                assert(consumed_count(evs, len) == consumed_count(evs, len - 1));
                assert forall|i: int| 0 <= i < p.evs().len() implies #[trigger] tok_entry_ok(
                    p.evs(),
                    i,
                    pre.kinds(),
                    pre.joints(),
                ) by {
                    lemma_counts_congruence(evs, p.evs(), i);
                    assert(tok_entry_ok(evs, i, pre.kinds(), pre.joints()));
                }
                assert forall|i: int| 0 <= i < p.evs().len() implies #[trigger] fp_entry_ok(
                    p.evs(),
                    i,
                ) by {
                    assert(fp_entry_ok(evs, i));
                    match evs[i] {
                        Event::StartNode { forward_parent: Some(d), .. } => {
                            assert(!fp_points_at(evs, i, idx as int));
                            assert(i + d < len - 1);
                        },
                        _ => {},
                    }
                }
                assert forall|k: int| 0 <= k <= p.evs().len() implies #[trigger] finish_count(
                    p.evs(),
                    k,
                ) <= live_count(p.evs(), k) by {
                    lemma_counts_congruence(evs, p.evs(), k);
                    assert(finish_count(evs, k) <= live_count(evs, k));
                }
            }
        }
    }
}

/// Whether entry `i`'s forward parent points at position `t`.
pub open spec fn fp_points_at(evs: Seq<Event>, i: int, t: int) -> bool {
    match evs[i] {
        Event::StartNode { forward_parent: Some(d), .. } => i + d == t,
        _ => false,
    }
}

/// A node that has been completed: its log position and resolved kind.
/// It can still be re-parented (`precede`) or pulled under an earlier
/// speculative marker (`extend_to`).
pub struct CompletedMarker {
    pos: usize,
    kind: SyntaxKind,
}

impl CompletedMarker {
    pub closed spec fn pos_spec(self) -> int {
        self.pos as int
    }

    pub closed spec fn kind_spec(self) -> SyntaxKind {
        self.kind
    }

    pub fn new(pos: usize, kind: SyntaxKind) -> (cm: CompletedMarker)
        ensures
            cm.pos_spec() == pos,
            cm.kind_spec() == kind,
    {
        CompletedMarker { pos, kind }
    }

    pub fn kind(&self) -> (k: SyntaxKind)
        ensures
            k == self.kind_spec(),
    {
        self.kind
    }

    /// Open a new, not-yet-kinded parent around this completed node: the
    /// node's start event gets a forward-parent link to the new marker, and
    /// linearization will open the parent first.
    pub fn precede(self, p: &mut Parser) -> (m: Marker)
        requires
            old(p).pwf(),
            self.pos_spec() < old(p).evs().len(),
            is_start(old(p).evs()[self.pos_spec()]),
        ensures
            final(p).pwf(),
            final(p).kinds() == old(p).kinds(),
            final(p).joints() == old(p).joints(),
            final(p).cur() == old(p).cur(),
            m.pos_spec() == old(p).evs().len(),
            final(p).evs() == old(p).evs().push(tombstone_spec()).update(
                self.pos_spec(),
                set_fp(
                    old(p).evs()[self.pos_spec()],
                    (old(p).evs().len() - self.pos_spec()) as usize,
                ),
            ),
    {
        let m = p.start();
        let ghost mid = *p;
        let idx = self.pos;
        let kind0: SyntaxKind = match &p.events[idx] {
            Event::StartNode { kind, .. } => *kind,
            _ => SyntaxKind::Tombstone,
        };
        let d = m.pos - idx;
        p.events[idx] = Event::StartNode { kind: kind0, forward_parent: Some(d) };
        proof {
            let evs = mid.evs();
            let e = Event::StartNode { kind: kind0, forward_parent: Some(d) };
            assert(p.evs() == evs.update(idx as int, e));
            assert(is_live_start(e) == is_live_start(evs[idx as int]));
            assert forall|k: int| 0 <= k <= p.evs().len() implies {
                &&& #[trigger] finish_count(p.evs(), k) <= live_count(p.evs(), k)
                &&& consumed_count(p.evs(), k) == consumed_count(evs, k)
            } by {
                lemma_counts_update(evs, idx as int, e, k);
            }
            lemma_counts_update(evs, idx as int, e, evs.len() as int);
            assert(consumed_count(p.evs(), p.evs().len() as int) == consumed_count(
                evs,
                evs.len() as int,
            ));
            assert forall|i: int| 0 <= i < p.evs().len() implies #[trigger] tok_entry_ok(
                p.evs(),
                i,
                mid.kinds(),
                mid.joints(),
            ) by {
                lemma_counts_update(evs, idx as int, e, i);
                if i != idx {
                    assert(tok_entry_ok(evs, i, mid.kinds(), mid.joints()));
                    assert(p.evs()[i] == evs[i]);
                }
            }
            assert forall|i: int| 0 <= i < p.evs().len() implies #[trigger] fp_entry_ok(
                p.evs(),
                i,
            ) by {
                if i != idx {
                    assert(fp_entry_ok(evs, i));
                    assert(p.evs()[i] == evs[i]);
                    match evs[i] {
                        Event::StartNode { forward_parent: Some(dd), .. } => {
                            assert(is_start(evs[i + dd]));
                            assert(is_start(p.evs()[i + dd]));
                        },
                        _ => {},
                    }
                } else {
                    assert(is_start(p.evs()[idx + d]));
                }
            }
        }
        m
    }

    /// Make the earlier, still-open marker the start of this completed
    /// node: the marker's placeholder gets a forward-parent link to this
    /// node and is consumed without a finish of its own.
    pub fn extend_to(self, p: &mut Parser, m: Marker) -> (cm: CompletedMarker)
        requires
            old(p).pwf(),
            m.pos_spec() < self.pos_spec() < old(p).evs().len(),
            is_start(old(p).evs()[m.pos_spec()]),
            is_start(old(p).evs()[self.pos_spec()]),
        ensures
            final(p).pwf(),
            final(p).kinds() == old(p).kinds(),
            final(p).joints() == old(p).joints(),
            final(p).cur() == old(p).cur(),
            final(p).evs() == old(p).evs().update(
                m.pos_spec(),
                set_fp(old(p).evs()[m.pos_spec()], (self.pos_spec() - m.pos_spec()) as usize),
            ),
            cm.pos_spec() == self.pos_spec(),
            cm.kind_spec() == self.kind_spec(),
    {
        let mut m = m;
        defuse_bomb(&mut m.bomb);
        let ghost pre = *p;
        let idx = m.pos;
        let kind0: SyntaxKind = match &p.events[idx] {
            Event::StartNode { kind, .. } => *kind,
            _ => SyntaxKind::Tombstone,
        };
        let d = self.pos - idx;
        p.events[idx] = Event::StartNode { kind: kind0, forward_parent: Some(d) };
        proof {
            let evs = pre.evs();
            let e = Event::StartNode { kind: kind0, forward_parent: Some(d) };
            assert(p.evs() == evs.update(idx as int, e));
            assert(is_live_start(e) == is_live_start(evs[idx as int]));
            assert forall|k: int| 0 <= k <= p.evs().len() implies {
                &&& #[trigger] finish_count(p.evs(), k) <= live_count(p.evs(), k)
                &&& consumed_count(p.evs(), k) == consumed_count(evs, k)
            } by {
                lemma_counts_update(evs, idx as int, e, k);
            }
            lemma_counts_update(evs, idx as int, e, evs.len() as int);
            assert(consumed_count(p.evs(), p.evs().len() as int) == consumed_count(
                evs,
                evs.len() as int,
            ));
            assert forall|i: int| 0 <= i < p.evs().len() implies #[trigger] tok_entry_ok(
                p.evs(),
                i,
                pre.kinds(),
                pre.joints(),
            ) by {
                lemma_counts_update(evs, idx as int, e, i);
                if i != idx {
                    assert(tok_entry_ok(evs, i, pre.kinds(), pre.joints()));
                    assert(p.evs()[i] == evs[i]);
                }
            }
            assert forall|i: int| 0 <= i < p.evs().len() implies #[trigger] fp_entry_ok(
                p.evs(),
                i,
            ) by {
                if i != idx {
                    assert(fp_entry_ok(evs, i));
                    assert(p.evs()[i] == evs[i]);
                    match evs[i] {
                        Event::StartNode { forward_parent: Some(dd), .. } => {
                            assert(is_start(evs[i + dd]));
                            assert(is_start(p.evs()[i + dd]));
                        },
                        _ => {},
                    }
                } else {
                    assert(is_start(p.evs()[idx + d]));
                }
            }
        }
        self
    }
}

} // verus!
