use vstd::prelude::*;
use crate::syntax_kind::{syntax_kind_of, SyntaxKind};
use crate::token::{rk, Token};
use crate::token_kind::TokenKind;

verus! {

/// Number of significant (non-trivia) tokens among the first `i` of `toks`.
pub open spec fn sig_count(toks: Seq<TokenKind>, i: int) -> int
    decreases i,
{
    if i <= 0 {
        0
    } else {
        sig_count(toks, i - 1) + if toks[i - 1].is_trivia_spec() {
            0int
        } else {
            1int
        }
    }
}

pub proof fn lemma_sig_count_monotone(toks: Seq<TokenKind>, i: int, j: int)
    requires
        0 <= i <= j,
    ensures
        sig_count(toks, i) <= sig_count(toks, j) <= sig_count(toks, i) + (j - i),
    decreases j - i,
{
    if i < j {
        lemma_sig_count_monotone(toks, i, j - 1);
    }
}

/// The kinds of two token sequences agree on a prefix, so does the count.
pub proof fn lemma_sig_count_congruence(a: Seq<TokenKind>, b: Seq<TokenKind>, i: int)
    requires
        forall|j: int| 0 <= j < i ==> a[j] == b[j],
    ensures
        sig_count(a, i) == sig_count(b, i),
    decreases i,
{
    if i > 0 {
        lemma_sig_count_congruence(a, b, i - 1);
    }
}

/// Every logical index below the significant count is hit by some
/// significant raw position.
pub proof fn lemma_sig_surjective(raw: Seq<TokenKind>, j: int)
    requires
        0 <= j < sig_count(raw, raw.len() as int),
    ensures
        exists|c: int|
            0 <= c < raw.len() && !(#[trigger] raw[c]).is_trivia_spec() && sig_count(raw, c) == j,
    decreases raw.len(),
{
    let ln = raw.len() as int;
    if raw[ln - 1].is_trivia_spec() {
        lemma_sig_count_congruence(raw, raw.drop_last(), ln - 1);
        lemma_sig_surjective(raw.drop_last(), j);
        let c = choose|c: int|
            0 <= c < ln - 1 && !(#[trigger] raw.drop_last()[c]).is_trivia_spec() && sig_count(
                raw.drop_last(),
                c,
            ) == j;
        lemma_sig_count_congruence(raw, raw.drop_last(), c);
        assert(!raw[c].is_trivia_spec() && sig_count(raw, c) == j);
    } else {
        if j == sig_count(raw, ln - 1) {
            assert(!raw[ln - 1].is_trivia_spec() && sig_count(raw, ln - 1) == j);
        } else {
            lemma_sig_count_congruence(raw, raw.drop_last(), ln - 1);
            lemma_sig_surjective(raw.drop_last(), j);
            let c = choose|c: int|
                0 <= c < ln - 1 && !(#[trigger] raw.drop_last()[c]).is_trivia_spec() && sig_count(
                    raw.drop_last(),
                    c,
                ) == j;
            lemma_sig_count_congruence(raw, raw.drop_last(), c);
            assert(!raw[c].is_trivia_spec() && sig_count(raw, c) == j);
        }
    }
}

/// The adaptation of the raw token sequence for the parser: the kinds of
/// the significant tokens, in order, and for each a joint flag that is set
/// exactly when the next significant token follows it immediately in the
/// raw sequence, with no trivia between the two.
pub struct Input {
    kinds: Vec<SyntaxKind>,
    joint: Vec<bool>,
}

impl Input {
    pub open spec fn wf(self) -> bool {
        self.kinds_seq().len() == self.joint_seq().len()
    }

    pub closed spec fn kinds_seq(self) -> Seq<SyntaxKind> {
        self.kinds@
    }

    pub closed spec fn joint_seq(self) -> Seq<bool> {
        self.joint@
    }

    /// What `from_tokens` guarantees about its result, relative to the raw
    /// token kinds it was built from.
    pub open spec fn models(self, raw: Seq<TokenKind>) -> bool {
        &&& self.wf()
        &&& self.kinds_seq().len() == sig_count(raw, raw.len() as int)
        &&& forall|c: int|
            0 <= c < raw.len() && !(#[trigger] raw[c]).is_trivia_spec() ==> {
                &&& 0 <= sig_count(raw, c) < self.kinds_seq().len()
                &&& self.kinds_seq()[sig_count(raw, c)] == syntax_kind_of(raw[c])
            }
        &&& forall|c: int|
            0 <= c < raw.len() && !(#[trigger] raw[c]).is_trivia_spec() && self.joint_seq()[sig_count(
                raw,
                c,
            )] ==> c + 1 < raw.len() && !raw[c + 1].is_trivia_spec()
        &&& forall|c: int|
            0 <= c && c + 1 < raw.len() && !(#[trigger] raw[c]).is_trivia_spec() && !raw[c
                + 1].is_trivia_spec() ==> self.joint_seq()[sig_count(raw, c)]
    }

    pub fn empty() -> (r: Input)
        ensures
            r.wf(),
            r.kinds_seq().len() == 0,
            r.joint_seq().len() == 0,
    {
        Input { kinds: Vec::new(), joint: Vec::new() }
    }

    /// Build the parser's view of a raw token sequence: trivia is dropped
    /// (but counted for joint-ness), every significant token's kind is kept.
    #[verifier::rlimit(100)]
    pub fn from_tokens(tokens: &[Token]) -> (r: Input)
        ensures
            r.models(rk(tokens@)),
    {
        let ghost raw = rk(tokens@);
        let mut result = Input::empty();
        let mut joint = false;
        let mut c: usize = 0;

        while c < tokens.len()
            invariant
                rk(tokens@) == raw,
                0 <= c <= raw.len(),
                result.wf(),
                result.kinds_seq().len() == sig_count(raw, c as int),
                joint == (c > 0 && !raw[c - 1].is_trivia_spec()),
                forall|d: int|
                    0 <= d < c && !(#[trigger] raw[d]).is_trivia_spec() ==> {
                        &&& 0 <= sig_count(raw, d) < result.kinds_seq().len()
                        &&& result.kinds_seq()[sig_count(raw, d)] == syntax_kind_of(raw[d])
                    },
                forall|d: int|
                    0 <= d < c && !(#[trigger] raw[d]).is_trivia_spec()
                        && result.joint_seq()[sig_count(raw, d)] ==> d + 1 < c && !raw[d
                        + 1].is_trivia_spec(),
                forall|d: int|
                    0 <= d && d + 1 < c && !(#[trigger] raw[d]).is_trivia_spec() && !raw[d
                        + 1].is_trivia_spec() ==> result.joint_seq()[sig_count(raw, d)],
            decreases tokens@.len() - c,
        {
            let ghost pre = result;
            let t_kind = tokens[c].kind;
            proof {
                assert(raw[c as int] == t_kind);
            }
            if t_kind.is_trivia() {
                joint = false;
                proof {
                    assert(sig_count(raw, c + 1) == sig_count(raw, c as int));
                }
            } else {
                let ghost was_joint_here = joint;
                if joint {
                    result.was_joint();
                } else {
                    joint = true;
                }
                result.push(t_kind.into());
                proof {
                    let n = pre.kinds_seq().len();
                    assert(sig_count(raw, c + 1) == sig_count(raw, c as int) + 1);
                    assert(sig_count(raw, c as int) == n);
                    assert forall|d: int|
                        0 <= d < c + 1 && !(#[trigger] raw[d]).is_trivia_spec() implies {
                        &&& 0 <= sig_count(raw, d) < result.kinds_seq().len()
                        &&& result.kinds_seq()[sig_count(raw, d)] == syntax_kind_of(raw[d])
                    } by {
                        lemma_sig_count_monotone(raw, 0, d);
                        if d < c {
                            lemma_sig_count_monotone(raw, d + 1, c as int);
                            assert(sig_count(raw, d) < n);
                        } else {
                            assert(d == c);
                        }
                    }
                    assert forall|d: int|
                        0 <= d < c + 1 && !(#[trigger] raw[d]).is_trivia_spec()
                            && result.joint_seq()[sig_count(raw, d)] implies d + 1 < c + 1 && !raw[d
                        + 1].is_trivia_spec() by {
                        lemma_sig_count_monotone(raw, 0, d);
                        if d == c {
                            assert(!result.joint_seq()[n as int]);
                        } else {
                            lemma_sig_count_monotone(raw, d + 1, c as int);
                            if sig_count(raw, d) < n - 1 || !was_joint_here {
                                // flag unchanged from the previous iteration
                                assert(result.joint_seq()[sig_count(raw, d)]
                                    == pre.joint_seq()[sig_count(raw, d)]);
                            } else {
                                // the flag set by was_joint belongs to the last
                                // significant token before c, which is c - 1
                                assert(sig_count(raw, d) == n - 1);
                                if d < c - 1 {
                                    assert(sig_count(raw, d + 1) == sig_count(raw, d) + 1);
                                    lemma_sig_count_monotone(raw, d + 1, c - 1);
                                    assert(!raw[c - 1].is_trivia_spec());
                                    assert(sig_count(raw, c as int) == sig_count(raw, c - 1) + 1);
                                    assert(false);
                                }
                                assert(d == c - 1);
                            }
                        }
                    }
                    assert forall|d: int|
                        0 <= d && d + 1 < c + 1 && !(#[trigger] raw[d]).is_trivia_spec() && !raw[d
                        + 1].is_trivia_spec() implies result.joint_seq()[sig_count(raw, d)] by {
                        lemma_sig_count_monotone(raw, 0, d);
                        if d + 1 < c {
                            // an earlier pair: its flag was already set and only
                            // grows monotonically under was_joint and push
                            assert(pre.joint_seq()[sig_count(raw, d)]);
                            lemma_sig_count_monotone(raw, d + 1, c as int);
                        } else {
                            // the new pair ends at c: the previous raw token was
                            // significant, so was_joint marked its flag
                            assert(d == c - 1);
                            assert(was_joint_here);
                            assert(sig_count(raw, c as int) == sig_count(raw, d) + 1);
                            assert(result.joint_seq()[n - 1]);
                        }
                    }
                }
            }
            c += 1;
        }
        proof {
            assert(c == raw.len());
        }
        result
    }

    /// Append a significant token's kind, not yet joint with anything.
    pub fn push(&mut self, kind: SyntaxKind)
        requires
            old(self).wf(),
        ensures
            final(self).wf(),
            final(self).kinds_seq() == old(self).kinds_seq().push(kind),
            final(self).joint_seq() == old(self).joint_seq().push(false),
    {
        self.kinds.push(kind);
        self.joint.push(false);
    }

    /// Mark the most recently pushed token as joint with its successor.
    pub fn was_joint(&mut self)
        requires
            old(self).wf(),
        ensures
            final(self).wf(),
            final(self).kinds_seq() == old(self).kinds_seq(),
            old(self).joint_seq().len() == 0 ==> final(self).joint_seq() == old(self).joint_seq(),
            old(self).joint_seq().len() > 0 ==> final(self).joint_seq() == old(
                self,
            ).joint_seq().update(old(self).joint_seq().len() - 1, true),
    {
        let n = self.joint.len();
        if n > 0 {
            self.joint[n - 1] = true;
        }
    }

    /// The kind at logical position `index`; `Eof` past the end, so that
    /// lookahead never needs a missing-value check.
    pub fn kind(&self, index: usize) -> (r: SyntaxKind)
        requires
            self.wf(),
        ensures
            r == if index < self.kinds_seq().len() {
                self.kinds_seq()[index as int]
            } else {
                SyntaxKind::Eof
            },
    {
        if index < self.kinds.len() {
            self.kinds[index]
        } else {
            SyntaxKind::Eof
        }
    }

    /// Whether the token at logical position `index` and the next one are
    /// adjacent in the raw sequence; `false` past the end.
    pub fn is_joint(&self, index: usize) -> (r: bool)
        requires
            self.wf(),
        ensures
            r == if index < self.joint_seq().len() {
                self.joint_seq()[index as int]
            } else {
                false
            },
    {
        if index < self.joint.len() {
            self.joint[index]
        } else {
            false
        }
    }

    /// The kinds are held in a vector, so their number fits in a `usize`.
    pub proof fn lemma_len_bound(self)
        ensures
            self.kinds_seq().len() <= usize::MAX,
    {
        broadcast use vstd::std_specs::vec::axiom_spec_len;

        assert(vstd::std_specs::vec::spec_vec_len(&self.kinds) == self.kinds@.len());
    }

    /// Number of significant tokens.
    pub fn len(&self) -> (r: usize)
        requires
            self.wf(),
        ensures
            r == self.kinds_seq().len(),
    {
        self.kinds.len()
    }
}

} // verus!
