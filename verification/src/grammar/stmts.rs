use vstd::prelude::*;
use crate::event::{tombstone_spec, Event};
use crate::grammar::{
    lemma_prefix_index, lemma_prod_complete, lemma_prod_err_recover, lemma_prod_push,
    lemma_prod_trans, prod,
};
use crate::grammar::expr;
use crate::grammar::types;
use crate::kind_set::KindSet;
use crate::parser::{err_node_seg, pushed_error, Parser};
use crate::syntax_kind::SyntaxKind;

verus! {

/// A statement: only `let` opens one; anything else records an error, and
/// (except at a closing brace or the end of input) consumes one token so
/// the enclosing block makes progress.
pub fn stmt(p: &mut Parser)
    requires
        old(p).pwf(),
    ensures
        prod(*old(p), *final(p)),
        final(p).cur() > old(p).cur() || final(p).nth_spec(0) == SyntaxKind::CloseBrace
            || final(p).nth_spec(0) == SyntaxKind::Eof,
        old(p).nth_spec(0) == SyntaxKind::LetKw ==> final(p).evs()[old(p).evs().len() as int]
            == (Event::StartNode { kind: SyntaxKind::LetStmt, forward_parent: None }),
        old(p).nth_spec(0) != SyntaxKind::LetKw ==> ({
            let k0 = old(p).nth_spec(0);
            // no statement node: only the diagnostic, plus one bogus token
            // wrapped in an Error node unless at a closing brace or the end
            if k0 == SyntaxKind::CloseBrace {
                pushed_error(old(p).evs(), final(p).evs(), "Expected a statement"@)
                    && final(p).cur() == old(p).cur()
            } else if k0 != SyntaxKind::Eof {
                err_node_seg(old(p).evs(), final(p).evs(), "Expected a statement"@, Some(k0))
                    && final(p).cur() == old(p).cur() + 1
            } else {
                err_node_seg(old(p).evs(), final(p).evs(), "Expected a statement"@, None)
                    && final(p).cur() == old(p).cur()
            }
        }),
    decreases old(p).kinds().len() - old(p).cur(), 7int,
{
    let ghost entry = *p;
    if p.peek() == SyntaxKind::LetKw {
        let_stmt(p);
    } else {
        p.err_recover("Expected a statement", KindSet::empty());
        proof {
            lemma_prod_err_recover(entry, *p, "Expected a statement"@);
        }
    }
}

/// `let`, a name, an optional `: type`, an optional `= expr`, and the
/// mandatory `;` — whose absence is an error but blocks nothing further.
pub fn let_stmt(p: &mut Parser)
    requires
        old(p).pwf(),
        old(p).nth_spec(0) == SyntaxKind::LetKw,
    ensures
        prod(*old(p), *final(p)),
        final(p).cur() > old(p).cur(),
        final(p).evs()[old(p).evs().len() as int] == (Event::StartNode {
            kind: SyntaxKind::LetStmt,
            forward_parent: None,
        }),
        final(p).evs()[old(p).evs().len() as int + 1] == (Event::AddToken {
            kind: SyntaxKind::LetKw,
            token_count: 1,
        }),
        old(p).nth_spec(1) == SyntaxKind::Ident ==> final(p).evs()[old(p).evs().len() as int + 2]
            == (Event::AddToken { kind: SyntaxKind::Ident, token_count: 1 }),
        old(p).nth_spec(1) != SyntaxKind::Ident ==> (match final(p).evs()[old(
            p,
        ).evs().len() as int + 2] {
            Event::Error(s) => s@ == "expected "@ + crate::syntax_kind::kind_name_spec(
                SyntaxKind::Ident,
            ),
            _ => false,
        }),
        final(p).evs().last() == Event::FinishNode,
    decreases old(p).kinds().len() - old(p).cur(), 6int,
{
    let ghost entry = *p;
    let m = p.start();
    let ghost s1 = *p;
    proof {
        lemma_prod_push(entry, s1, tombstone_spec());
        assert(s1.evs()[m.pos_spec()] == tombstone_spec());
    }
    p.bump(SyntaxKind::LetKw);
    let ghost s2 = *p;
    proof {
        lemma_prod_push(s1, s2, Event::AddToken { kind: SyntaxKind::LetKw, token_count: 1 });
        lemma_prod_trans(entry, s1, s2);
        assert(s2.evs()[m.pos_spec()] == tombstone_spec());
    }

    expect_step(p, SyntaxKind::Ident);
    let ghost s3 = *p;
    proof {
        lemma_prod_trans(entry, s2, s3);
        lemma_prefix_index(s2.evs(), s3.evs(), m.pos_spec());
        assert(s3.evs()[m.pos_spec()] == tombstone_spec());
        // the keyword and the name-or-error events now stand at fixed places
        assert(s2.nth_spec(0) == entry.nth_spec(1));
        assert(s2.nth_at_spec(0, SyntaxKind::Ident) == (entry.nth_spec(1) == SyntaxKind::Ident));
        if s2.nth_at_spec(0, SyntaxKind::Ident) {
            assert(crate::parser::tcount_at(s2, SyntaxKind::Ident) == 1);
            assert(s3.evs()[m.pos_spec() + 2] == (Event::AddToken {
                kind: SyntaxKind::Ident,
                token_count: 1,
            }));
        } else {
            assert(s3.evs()[m.pos_spec() + 2] == s3.evs().last());
        }
        lemma_prefix_index(s2.evs(), s3.evs(), m.pos_spec() + 1);
        assert(s3.evs()[m.pos_spec() + 1] == (Event::AddToken {
            kind: SyntaxKind::LetKw,
            token_count: 1,
        }));
        assert(s3.evs().len() == m.pos_spec() + 3);
    }

    if p.eat(SyntaxKind::Colon) {
        let ghost s4 = *p;
        proof {
            lemma_prod_push(s3, s4, Event::AddToken { kind: SyntaxKind::Colon, token_count: 1 });
            lemma_prod_trans(entry, s3, s4);
            assert(s4.evs()[m.pos_spec()] == tombstone_spec());
        }
        types::type_(p);
        proof {
            lemma_prod_trans(entry, s4, *p);
            lemma_prefix_index(s4.evs(), p.evs(), m.pos_spec());
            assert(p.evs()[m.pos_spec()] == tombstone_spec());
            lemma_prefix_index(s4.evs(), p.evs(), m.pos_spec() + 1);
            lemma_prefix_index(s4.evs(), p.evs(), m.pos_spec() + 2);
        }
    }
    let ghost s5 = *p;
    proof {
        assert(prod(entry, s5));
        assert(s5.evs()[m.pos_spec()] == tombstone_spec());
        assert(s5.evs()[m.pos_spec() + 1] == s3.evs()[m.pos_spec() + 1]);
        assert(s5.evs()[m.pos_spec() + 2] == s3.evs()[m.pos_spec() + 2]);
    }

    if p.eat(SyntaxKind::Equals) {
        let ghost s6 = *p;
        proof {
            lemma_prod_push(s5, s6, Event::AddToken { kind: SyntaxKind::Equals, token_count: 1 });
            lemma_prod_trans(entry, s5, s6);
            assert(s6.evs()[m.pos_spec()] == tombstone_spec());
        }
        expr::expr(p);
        proof {
            lemma_prod_trans(entry, s6, *p);
            lemma_prefix_index(s6.evs(), p.evs(), m.pos_spec());
            assert(p.evs()[m.pos_spec()] == tombstone_spec());
            lemma_prefix_index(s6.evs(), p.evs(), m.pos_spec() + 1);
            lemma_prefix_index(s6.evs(), p.evs(), m.pos_spec() + 2);
        }
    }
    let ghost s7 = *p;
    proof {
        assert(prod(entry, s7));
        assert(s7.evs()[m.pos_spec()] == tombstone_spec());
        assert(s7.evs()[m.pos_spec() + 1] == s3.evs()[m.pos_spec() + 1]);
        assert(s7.evs()[m.pos_spec() + 2] == s3.evs()[m.pos_spec() + 2]);
    }

    expect_step(p, SyntaxKind::Semicolon);
    let ghost s8 = *p;
    proof {
        lemma_prod_trans(entry, s7, s8);
        lemma_prefix_index(s7.evs(), s8.evs(), m.pos_spec());
        assert(s8.evs()[m.pos_spec()] == tombstone_spec());
        lemma_prefix_index(s7.evs(), s8.evs(), m.pos_spec() + 1);
        lemma_prefix_index(s7.evs(), s8.evs(), m.pos_spec() + 2);
        assert(s8.evs()[m.pos_spec() + 1] == s3.evs()[m.pos_spec() + 1]);
        assert(s8.evs()[m.pos_spec() + 2] == s3.evs()[m.pos_spec() + 2]);
    }
    m.complete(p, SyntaxKind::LetStmt);
    proof {
        lemma_prod_complete(entry, s8, *p, m.pos_spec(), SyntaxKind::LetStmt);
    }
}

/// `expect` as one production step: consume the kind or record its absence.
pub fn expect_step(p: &mut Parser, kind: SyntaxKind)
    requires
        old(p).pwf(),
        kind != SyntaxKind::Eof,
    ensures
        prod(*old(p), *final(p)),
        final(p).evs().len() == old(p).evs().len() + 1,
        old(p).nth_at_spec(0, kind) ==> final(p).cur() > old(p).cur() && final(p).evs() == old(
            p,
        ).evs().push(
            Event::AddToken {
                kind,
                token_count: crate::parser::tcount_at(*old(p), kind) as usize,
            },
        ),
        !old(p).nth_at_spec(0, kind) ==> final(p).cur() == old(p).cur() && pushed_error(
            old(p).evs(),
            final(p).evs(),
            "expected "@ + crate::syntax_kind::kind_name_spec(kind),
        ),
{
    let ghost entry = *p;
    p.expect(kind);
    proof {
        if entry.nth_at_spec(0, kind) {
            lemma_prod_push(
                entry,
                *p,
                Event::AddToken {
                    kind,
                    token_count: crate::parser::tcount_at(entry, kind) as usize,
                },
            );
        } else {
            assert(p.evs() =~= entry.evs().push(p.evs().last()));
            lemma_prod_push(entry, *p, p.evs().last());
        }
    }
}

} // verus!
