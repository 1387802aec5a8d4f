use vstd::prelude::*;
use crate::event::{tombstone_spec, Event};
use crate::grammar::{
    cm_ok, lemma_prefix_index, lemma_prod_abandon, lemma_prod_complete, lemma_prod_err_recover,
    lemma_prod_precede, lemma_prod_push, lemma_prod_same, lemma_prod_trans, prod,
};
use crate::kind_set::KindSet;
use crate::parser::{err_node_seg, pushed_error, set_fp, tcount_at, CompletedMarker, Parser};
use crate::syntax_kind::SyntaxKind;

verus! {

/// The kinds a literal expression may start with.
pub fn literal_start() -> (s: KindSet)
    ensures
        forall|k: SyntaxKind| #[trigger] s.has(k) <==> (k == SyntaxKind::TrueKw || k
            == SyntaxKind::FalseKw || k == SyntaxKind::String || k == SyntaxKind::Integer),
{
    let s = KindSet::new(
        &[SyntaxKind::TrueKw, SyntaxKind::FalseKw, SyntaxKind::String, SyntaxKind::Integer],
    );
    proof {
        let kinds = seq![
            SyntaxKind::TrueKw,
            SyntaxKind::FalseKw,
            SyntaxKind::String,
            SyntaxKind::Integer,
        ];
        assert forall|k: SyntaxKind| #[trigger] s.has(k) <==> (k == SyntaxKind::TrueKw || k
            == SyntaxKind::FalseKw || k == SyntaxKind::String || k == SyntaxKind::Integer) by {
            if k == SyntaxKind::TrueKw {
                assert(kinds[0] == k);
                assert(kinds.contains(k));
            }
            if k == SyntaxKind::FalseKw {
                assert(kinds[1] == k);
                assert(kinds.contains(k));
            }
            if k == SyntaxKind::String {
                assert(kinds[2] == k);
                assert(kinds.contains(k));
            }
            if k == SyntaxKind::Integer {
                assert(kinds[3] == k);
                assert(kinds.contains(k));
            }
            if kinds.contains(k) {
                let i = choose|i: int| 0 <= i < kinds.len() && kinds[i] == k;
                assert(k == SyntaxKind::TrueKw || k == SyntaxKind::FalseKw || k
                    == SyntaxKind::String || k == SyntaxKind::Integer);
            }
        }
    }
    s
}

/// Where a failed expression stops recovery: a statement keyword must stay
/// for the enclosing production.
pub fn expr_recovery() -> (s: KindSet)
    ensures
        forall|k: SyntaxKind| #[trigger] s.has(k) <==> k == SyntaxKind::LetKw,
{
    let s = KindSet::new(&[SyntaxKind::LetKw]);
    proof {
        let kinds = seq![SyntaxKind::LetKw];
        assert forall|k: SyntaxKind| #[trigger] s.has(k) <==> k == SyntaxKind::LetKw by {
            if k == SyntaxKind::LetKw {
                assert(kinds[0] == k);
                assert(kinds.contains(k));
            }
            if kinds.contains(k) {
                let i = choose|i: int| 0 <= i < kinds.len() && kinds[i] == k;
            }
        }
    }
    s
}

/// The kinds a literal may start with, as a predicate.
pub open spec fn literal_start_spec(k: SyntaxKind) -> bool {
    k == SyntaxKind::TrueKw || k == SyntaxKind::FalseKw || k == SyntaxKind::String || k
        == SyntaxKind::Integer
}

/// The kinds an atomic expression may start with.
pub open spec fn atom_start_spec(k: SyntaxKind) -> bool {
    literal_start_spec(k) || k == SyntaxKind::OpenParen || k == SyntaxKind::Ident
}

/// The kinds any expression may start with: a prefix operator or an atom.
pub open spec fn expr_start_spec(k: SyntaxKind) -> bool {
    atom_start_spec(k) || k == SyntaxKind::Minus || k == SyntaxKind::Exclamation
}

/// The node an atomic expression starting with `k` completes.
pub open spec fn atom_node_kind(k: SyntaxKind) -> SyntaxKind {
    if literal_start_spec(k) {
        SyntaxKind::Literal
    } else if k == SyntaxKind::OpenParen {
        SyntaxKind::ParenExpr
    } else {
        SyntaxKind::NameRef
    }
}

/// The node a left-hand side starting with `k` completes.
pub open spec fn lhs_node_kind(k: SyntaxKind) -> SyntaxKind {
    if k == SyntaxKind::Minus || k == SyntaxKind::Exclamation {
        SyntaxKind::PrefixExpr
    } else {
        atom_node_kind(k)
    }
}

/// An expression, parsed with the lowest binding power.
pub fn expr(p: &mut Parser) -> (r: Option<CompletedMarker>)
    requires
        old(p).pwf(),
    ensures
        prod(*old(p), *final(p)),
        r is Some <==> expr_start_spec(old(p).nth_spec(0)),
        r is Some ==> cm_ok(*old(p), *final(p), r->0) && final(p).cur() > old(p).cur(),
        r is Some ==> r->0.kind_spec() == SyntaxKind::BinaryExpr || r->0.kind_spec()
            == lhs_node_kind(old(p).nth_spec(0)),
        r is Some ==> current_op_spec(*final(p)).0 == 0,
        r is None ==> final(p).evs().len() > old(p).evs().len(),
    decreases old(p).kinds().len() - old(p).cur(), 5int,
{
    let r = expr_bp(p, 1);
    proof {
        if r is Some {
            assert(current_op_spec(*p).0 < 1);
        }
    }
    r
}

/// A literal becomes a `Literal` node; nothing is consumed otherwise.
pub fn literal(p: &mut Parser) -> (r: Option<CompletedMarker>)
    requires
        old(p).pwf(),
    ensures
        prod(*old(p), *final(p)),
        r is Some <==> literal_start_spec(old(p).nth_spec(0)),
        r is Some ==> r->0.kind_spec() == SyntaxKind::Literal,
        r is Some ==> cm_ok(*old(p), *final(p), r->0) && final(p).cur() == old(p).cur() + 1
            && final(p).evs() == old(p).evs() + seq![
            Event::StartNode { kind: SyntaxKind::Literal, forward_parent: None },
            Event::AddToken { kind: old(p).nth_spec(0), token_count: 1 },
            Event::FinishNode,
        ],
        r is None ==> *final(p) == *old(p),
{
    let ghost entry = *p;
    if !p.at_set(literal_start()) {
        proof {
            lemma_prod_same(entry, *p);
        }
        return None;
    }
    let m = p.start();
    let ghost s1 = *p;
    p.bump_any();
    let ghost s2 = *p;
    proof {
        lemma_prod_push(entry, s1, tombstone_spec());
        lemma_prod_push(
            s1,
            s2,
            Event::AddToken { kind: entry.nth_spec(0), token_count: 1 },
        );
        lemma_prod_trans(entry, s1, s2);
        assert(s2.evs()[m.pos_spec()] == tombstone_spec());
    }
    let cm = m.complete(p, SyntaxKind::Literal);
    proof {
        lemma_prod_complete(entry, s2, *p, m.pos_spec(), SyntaxKind::Literal);
        assert(p.evs() =~= entry.evs() + seq![
            Event::StartNode { kind: SyntaxKind::Literal, forward_parent: None },
            Event::AddToken { kind: entry.nth_spec(0), token_count: 1 },
            Event::FinishNode,
        ]);
    }
    Some(cm)
}

/// An atomic expression: a literal, a parenthesized expression, or a bare
/// name; anything else records an error, recovering before `let`.
pub fn atom_expr(p: &mut Parser) -> (r: Option<CompletedMarker>)
    requires
        old(p).pwf(),
    ensures
        prod(*old(p), *final(p)),
        r is Some <==> atom_start_spec(old(p).nth_spec(0)),
        r is Some ==> cm_ok(*old(p), *final(p), r->0) && final(p).cur() > old(p).cur(),
        r is Some ==> r->0.kind_spec() == atom_node_kind(old(p).nth_spec(0)),
        literal_start_spec(old(p).nth_spec(0)) ==> final(p).evs() == old(p).evs() + seq![
            Event::StartNode { kind: SyntaxKind::Literal, forward_parent: None },
            Event::AddToken { kind: old(p).nth_spec(0), token_count: 1 },
            Event::FinishNode,
        ] && final(p).cur() == old(p).cur() + 1,
        old(p).nth_spec(0) == SyntaxKind::Ident ==> final(p).evs() == old(p).evs() + seq![
            Event::StartNode { kind: SyntaxKind::NameRef, forward_parent: None },
            Event::AddToken { kind: SyntaxKind::Ident, token_count: 1 },
            Event::FinishNode,
        ],
        old(p).nth_spec(0) == SyntaxKind::OpenParen ==> final(p).evs()[old(p).evs().len() as int]
            == (Event::StartNode { kind: SyntaxKind::ParenExpr, forward_parent: None })
            && final(p).evs()[old(p).evs().len() as int + 1] == (Event::AddToken {
            kind: SyntaxKind::OpenParen,
            token_count: 1,
        }) && final(p).evs().last() == Event::FinishNode,
        !atom_start_spec(old(p).nth_spec(0)) ==> ({
            let k0 = old(p).nth_spec(0);
            // the recovery policy, with `let` left for the enclosing statement
            if k0 == SyntaxKind::CloseBrace || k0 == SyntaxKind::LetKw {
                pushed_error(old(p).evs(), final(p).evs(), "expected expression"@)
                    && final(p).cur() == old(p).cur()
            } else if k0 != SyntaxKind::Eof {
                err_node_seg(old(p).evs(), final(p).evs(), "expected expression"@, Some(k0))
                    && final(p).cur() == old(p).cur() + 1
            } else {
                err_node_seg(old(p).evs(), final(p).evs(), "expected expression"@, None)
                    && final(p).cur() == old(p).cur()
            }
        }),
        r is None ==> final(p).evs().len() > old(p).evs().len(),
    decreases old(p).kinds().len() - old(p).cur(), 2int,
{
    let ghost entry = *p;
    if let Some(cm) = literal(p) {
        return Some(cm);
    }

    let k = p.peek();
    if k == SyntaxKind::OpenParen {
        let cm = paren_expr(p);
        Some(cm)
    } else if k == SyntaxKind::Ident {
        let m = p.start();
        let ghost s1 = *p;
        p.bump_any();
        let ghost s2 = *p;
        proof {
            lemma_prod_push(entry, s1, tombstone_spec());
            lemma_prod_push(
                s1,
                s2,
                Event::AddToken { kind: SyntaxKind::Ident, token_count: 1 },
            );
            lemma_prod_trans(entry, s1, s2);
            assert(s2.evs()[m.pos_spec()] == tombstone_spec());
        }
        let cm = m.complete(p, SyntaxKind::NameRef);
        proof {
            lemma_prod_complete(entry, s2, *p, m.pos_spec(), SyntaxKind::NameRef);
            assert(p.evs() =~= entry.evs() + seq![
                Event::StartNode { kind: SyntaxKind::NameRef, forward_parent: None },
                Event::AddToken { kind: SyntaxKind::Ident, token_count: 1 },
                Event::FinishNode,
            ]);
        }
        Some(cm)
    } else {
        p.err_recover("expected expression", expr_recovery());
        proof {
            lemma_prod_err_recover(entry, *p, "expected expression"@);
        }
        None
    }
}

/// A parenthesized sub-expression: `(`, an expression, and a required `)`.
pub fn paren_expr(p: &mut Parser) -> (cm: CompletedMarker)
    requires
        old(p).pwf(),
        old(p).nth_spec(0) == SyntaxKind::OpenParen,
    ensures
        prod(*old(p), *final(p)),
        cm_ok(*old(p), *final(p), cm),
        cm.kind_spec() == SyntaxKind::ParenExpr,
        cm.pos_spec() == old(p).evs().len(),
        final(p).evs()[old(p).evs().len() as int] == (Event::StartNode {
            kind: SyntaxKind::ParenExpr,
            forward_parent: None,
        }),
        final(p).evs()[old(p).evs().len() as int + 1] == (Event::AddToken {
            kind: SyntaxKind::OpenParen,
            token_count: 1,
        }),
        final(p).evs().last() == Event::FinishNode,
        final(p).cur() > old(p).cur(),
    decreases old(p).kinds().len() - old(p).cur(), 1int,
{
    let ghost entry = *p;
    let m = p.start();
    let ghost s1 = *p;
    proof {
        lemma_prod_push(entry, s1, tombstone_spec());
    }
    proof {
        assert(s1.evs()[m.pos_spec()] == tombstone_spec());
    }
    p.expect(SyntaxKind::OpenParen);
    let ghost s2 = *p;
    proof {
        lemma_prod_push(
            s1,
            s2,
            Event::AddToken { kind: SyntaxKind::OpenParen, token_count: 1 },
        );
        lemma_prod_trans(entry, s1, s2);
        assert(s2.evs()[m.pos_spec()] == tombstone_spec());
    }
    expr(p);
    let ghost s3 = *p;
    proof {
        lemma_prod_trans(entry, s2, s3);
        lemma_prefix_index(s2.evs(), s3.evs(), m.pos_spec());
        assert(s3.evs()[m.pos_spec()] == tombstone_spec());
    }
    p.expect(SyntaxKind::CloseParen);
    let ghost s4 = *p;
    proof {
        if s3.nth_at_spec(0, SyntaxKind::CloseParen) {
            lemma_prod_push(
                s3,
                s4,
                Event::AddToken { kind: SyntaxKind::CloseParen, token_count: 1 },
            );
        } else {
            assert(s4.evs() =~= s3.evs().push(s4.evs().last()));
            lemma_prod_push(s3, s4, s4.evs().last());
        }
        lemma_prod_trans(entry, s3, s4);
        lemma_prefix_index(s3.evs(), s4.evs(), m.pos_spec());
        assert(s4.evs()[m.pos_spec()] == tombstone_spec());
    }
    let cm = m.complete(p, SyntaxKind::ParenExpr);
    proof {
        lemma_prod_complete(entry, s4, *p, m.pos_spec(), SyntaxKind::ParenExpr);
    }
    cm
}

/// The binding power and logical kind of the operator at the cursor, or
/// zero when no infix operator is next.  Higher powers bind tighter:
/// bitwise or(5) < xor(6) < and(7) below comparisons would not parse, so
/// the full table reads: comparisons(3) < shifts(4) < or(5) < xor(6) <
/// and(7) < additive(8) < multiplicative(9).
pub open spec fn current_op_spec(p: Parser) -> (u8, SyntaxKind) {
    let k = p.nth_spec(0);
    if k == SyntaxKind::Or {
        (5u8, SyntaxKind::Or)
    } else if k == SyntaxKind::Xor {
        (6u8, SyntaxKind::Xor)
    } else if k == SyntaxKind::And {
        (7u8, SyntaxKind::And)
    } else if k == SyntaxKind::LessThan {
        if p.nth_at_spec(0, SyntaxKind::LessThanEquals) {
            (3u8, SyntaxKind::LessThanEquals)
        } else if p.nth_at_spec(0, SyntaxKind::LeftShift) {
            (4u8, SyntaxKind::LeftShift)
        } else {
            (3u8, SyntaxKind::LessThan)
        }
    } else if k == SyntaxKind::GreaterThan {
        if p.nth_at_spec(0, SyntaxKind::UnsignedRightShift) {
            (4u8, SyntaxKind::UnsignedRightShift)
        } else if p.nth_at_spec(0, SyntaxKind::RightShift) {
            (4u8, SyntaxKind::RightShift)
        } else if p.nth_at_spec(0, SyntaxKind::GreaterThanEquals) {
            (3u8, SyntaxKind::GreaterThanEquals)
        } else {
            (3u8, SyntaxKind::GreaterThan)
        }
    } else if k == SyntaxKind::Equals {
        if p.nth_at_spec(0, SyntaxKind::EqualTo) {
            (3u8, SyntaxKind::EqualTo)
        } else {
            (0u8, SyntaxKind::Error)
        }
    } else if k == SyntaxKind::Exclamation {
        if p.nth_at_spec(0, SyntaxKind::NotEqual) {
            (3u8, SyntaxKind::NotEqual)
        } else {
            (0u8, SyntaxKind::Error)
        }
    } else if k == SyntaxKind::Plus {
        (8u8, SyntaxKind::Plus)
    } else if k == SyntaxKind::Minus {
        (8u8, SyntaxKind::Minus)
    } else if k == SyntaxKind::Star {
        (9u8, SyntaxKind::Star)
    } else if k == SyntaxKind::Slash {
        (9u8, SyntaxKind::Slash)
    } else if k == SyntaxKind::Percent {
        (9u8, SyntaxKind::Percent)
    } else {
        (0u8, SyntaxKind::Error)
    }
}

pub fn current_op(p: &Parser) -> (r: (u8, SyntaxKind))
    requires
        p.pwf(),
    ensures
        r == current_op_spec(*p),
        r.0 >= 1 ==> p.nth_at_spec(0, r.1) && r.1 != SyntaxKind::Eof,
        r.0 <= 9,
{
    let k = p.peek();
    if k == SyntaxKind::Or {
        (5, SyntaxKind::Or)
    } else if k == SyntaxKind::Xor {
        (6, SyntaxKind::Xor)
    } else if k == SyntaxKind::And {
        (7, SyntaxKind::And)
    } else if k == SyntaxKind::LessThan {
        if p.at(SyntaxKind::LessThanEquals) {
            (3, SyntaxKind::LessThanEquals)
        } else if p.at(SyntaxKind::LeftShift) {
            (4, SyntaxKind::LeftShift)
        } else {
            (3, SyntaxKind::LessThan)
        }
    } else if k == SyntaxKind::GreaterThan {
        if p.at(SyntaxKind::UnsignedRightShift) {
            (4, SyntaxKind::UnsignedRightShift)
        } else if p.at(SyntaxKind::RightShift) {
            (4, SyntaxKind::RightShift)
        } else if p.at(SyntaxKind::GreaterThanEquals) {
            (3, SyntaxKind::GreaterThanEquals)
        } else {
            (3, SyntaxKind::GreaterThan)
        }
    } else if k == SyntaxKind::Equals {
        if p.at(SyntaxKind::EqualTo) {
            (3, SyntaxKind::EqualTo)
        } else {
            (0, SyntaxKind::Error)
        }
    } else if k == SyntaxKind::Exclamation {
        if p.at(SyntaxKind::NotEqual) {
            (3, SyntaxKind::NotEqual)
        } else {
            (0, SyntaxKind::Error)
        }
    } else if k == SyntaxKind::Plus {
        (8, SyntaxKind::Plus)
    } else if k == SyntaxKind::Minus {
        (8, SyntaxKind::Minus)
    } else if k == SyntaxKind::Star {
        (9, SyntaxKind::Star)
    } else if k == SyntaxKind::Slash {
        (9, SyntaxKind::Slash)
    } else if k == SyntaxKind::Percent {
        (9, SyntaxKind::Percent)
    } else {
        (0, SyntaxKind::Error)
    }
}

/// Precedence climbing: parse a left-hand side, then as long as the next
/// operator binds at least as tightly as `bp`, consume it, parse the
/// right-hand side one level tighter (so equal powers associate to the
/// left), and wrap both in a `BinaryExpr` via `precede`.
pub fn expr_bp(p: &mut Parser, bp: u8) -> (r: Option<CompletedMarker>)
    requires
        old(p).pwf(),
        bp >= 1,
    ensures
        prod(*old(p), *final(p)),
        r is Some <==> expr_start_spec(old(p).nth_spec(0)),
        r is Some ==> cm_ok(*old(p), *final(p), r->0) && final(p).cur() > old(p).cur(),
        r is Some ==> r->0.kind_spec() == SyntaxKind::BinaryExpr || r->0.kind_spec()
            == lhs_node_kind(old(p).nth_spec(0)),
        r is Some ==> current_op_spec(*final(p)).0 < bp,
        r is None ==> final(p).evs().len() > old(p).evs().len(),
    decreases old(p).kinds().len() - old(p).cur(), 4int,
{
    let ghost entry = *p;
    let m = p.start();
    let ghost s1 = *p;
    proof {
        lemma_prod_push(entry, s1, tombstone_spec());
    }
    let mut lhs_cm: CompletedMarker;
    match lhs(p) {
        Some(cm) => {
            let ghost s2 = *p;
            proof {
                lemma_prod_trans(entry, s1, s2);
                lemma_prefix_index(s1.evs(), s2.evs(), m.pos_spec());
                assert(s2.evs()[m.pos_spec()] == tombstone_spec());
                assert(s1.nth_spec(0) == entry.nth_spec(0));
            }
            lhs_cm = cm.extend_to(p, m);
            proof {
                let e = set_fp(
                    s2.evs()[m.pos_spec()],
                    (cm.pos_spec() - m.pos_spec()) as usize,
                );
                crate::grammar::lemma_prod_set_fp(entry, s2, *p, m.pos_spec(), e);
                assert(m.pos_spec() < cm.pos_spec());
                assert(p.evs()[cm.pos_spec()] == s2.evs()[cm.pos_spec()]);
            }
        },
        None => {
            let ghost s2 = *p;
            proof {
                lemma_prod_trans(entry, s1, s2);
                lemma_prefix_index(s1.evs(), s2.evs(), m.pos_spec());
                assert(s2.evs()[m.pos_spec()] == tombstone_spec());
                assert(m.pos_spec() < s2.evs().len() - 1);
            }
            m.abandon(p);
            proof {
                lemma_prod_abandon(entry, s2, *p, m.pos_spec());
            }
            return None;
        },
    }

    loop
        invariant_except_break
            entry == *old(p),
            1 <= bp,
            p.pwf(),
            prod(entry, *p),
            entry.evs().len() <= lhs_cm.pos_spec() < p.evs().len(),
            (match p.evs()[lhs_cm.pos_spec()] {
                Event::StartNode { kind, .. } => kind == lhs_cm.kind_spec() && kind
                    != SyntaxKind::Tombstone,
                _ => false,
            }),
            lhs_cm.kind_spec() == SyntaxKind::BinaryExpr || lhs_cm.kind_spec() == lhs_node_kind(
                entry.nth_spec(0),
            ),
            entry.cur() < p.cur(),
        ensures
            entry == *old(p),
            p.pwf(),
            prod(entry, *p),
            entry.evs().len() <= lhs_cm.pos_spec() < p.evs().len(),
            (match p.evs()[lhs_cm.pos_spec()] {
                Event::StartNode { kind, .. } => kind == lhs_cm.kind_spec() && kind
                    != SyntaxKind::Tombstone,
                _ => false,
            }),
            lhs_cm.kind_spec() == SyntaxKind::BinaryExpr || lhs_cm.kind_spec() == lhs_node_kind(
                entry.nth_spec(0),
            ),
            entry.cur() < p.cur(),
            current_op_spec(*p).0 < bp,
        decreases p.kinds().len() - p.cur(),
    {
        let (op_bp, op) = current_op(p);
        if op_bp < bp {
            break;
        }

        let ghost l0 = *p;
        let m2 = lhs_cm.precede(p);
        let ghost l1 = *p;
        proof {
            let e = set_fp(
                l0.evs()[lhs_cm.pos_spec()],
                (l0.evs().len() - lhs_cm.pos_spec()) as usize,
            );
            lemma_prod_precede(entry, l0, l1, lhs_cm.pos_spec(), e);
            assert(crate::event::is_start(l0.evs()[lhs_cm.pos_spec()]));
            assert(l1.cur() == l0.cur() && l1.kinds() == l0.kinds() && l1.joints() == l0.joints());
            crate::parser::lemma_nth_at_congruence(l0, l1, 0, op);
            assert(l1.nth_at_spec(0, op));
        }
        p.bump(op);
        let ghost l2 = *p;
        proof {
            lemma_prod_push(
                l1,
                l2,
                Event::AddToken { kind: op, token_count: tcount_at(l1, op) as usize },
            );
            lemma_prod_trans(entry, l1, l2);
        }
        expr_bp(p, op_bp + 1);
        let ghost l3 = *p;
        proof {
            lemma_prod_trans(entry, l2, l3);
            assert(l1.evs()[m2.pos_spec()] == tombstone_spec());
            lemma_prefix_index(l2.evs(), l3.evs(), m2.pos_spec());
            assert(l3.evs()[m2.pos_spec()] == tombstone_spec());
        }
        lhs_cm = m2.complete(p, SyntaxKind::BinaryExpr);
        proof {
            lemma_prod_complete(entry, l3, *p, m2.pos_spec(), SyntaxKind::BinaryExpr);
        }
    }

    Some(lhs_cm)
}

/// A left-hand side: a prefix operator applied at maximum binding power, or
/// an atomic expression.
pub fn lhs(p: &mut Parser) -> (r: Option<CompletedMarker>)
    requires
        old(p).pwf(),
    ensures
        prod(*old(p), *final(p)),
        r is Some <==> expr_start_spec(old(p).nth_spec(0)),
        r is Some ==> cm_ok(*old(p), *final(p), r->0) && final(p).cur() > old(p).cur(),
        r is Some ==> r->0.kind_spec() == lhs_node_kind(old(p).nth_spec(0)),
        r is None ==> final(p).evs().len() > old(p).evs().len(),
    decreases old(p).kinds().len() - old(p).cur(), 3int,
{
    let ghost entry = *p;
    let k = p.peek();
    if k == SyntaxKind::Minus || k == SyntaxKind::Exclamation {
        let m = p.start();
        let ghost s1 = *p;
        p.bump_any();
        let ghost s2 = *p;
        proof {
            lemma_prod_push(entry, s1, tombstone_spec());
            lemma_prod_push(s1, s2, Event::AddToken { kind: k, token_count: 1 });
            lemma_prod_trans(entry, s1, s2);
        }
        expr_bp(p, 255);
        let ghost s3 = *p;
        proof {
            lemma_prod_trans(entry, s2, s3);
            assert(s2.evs()[m.pos_spec()] == tombstone_spec());
            lemma_prefix_index(s2.evs(), s3.evs(), m.pos_spec());
        }
        let cm = m.complete(p, SyntaxKind::PrefixExpr);
        proof {
            lemma_prod_complete(entry, s3, *p, m.pos_spec(), SyntaxKind::PrefixExpr);
        }
        Some(cm)
    } else {
        atom_expr(p)
    }
}

} // verus!
