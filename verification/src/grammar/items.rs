use vstd::prelude::*;
use crate::event::{tombstone_spec, Event};
use crate::grammar::{
    lemma_prefix_index, lemma_prod_abandon, lemma_prod_complete, lemma_prod_err_recover,
    lemma_prod_push, lemma_prod_trans, prod,
};
use crate::grammar::stmts;
use crate::grammar::stmts::expect_step;
use crate::grammar::types;
use crate::kind_set::KindSet;
use crate::parser::{err_node_seg, pushed_error, Parser};
use crate::syntax_kind::SyntaxKind;

verus! {

/// The kinds a parameter may start with.
pub fn param_start() -> (s: KindSet)
    ensures
        forall|k: SyntaxKind| #[trigger] s.has(k) <==> k == SyntaxKind::Ident,
{
    let s = types::type_start().union(KindSet::new(&[SyntaxKind::Ident]));
    proof {
        let kinds = seq![SyntaxKind::Ident];
        assert forall|k: SyntaxKind| #[trigger] s.has(k) <==> k == SyntaxKind::Ident by {
            if k == SyntaxKind::Ident {
                assert(kinds[0] == k);
                assert(kinds.contains(k));
            }
            if kinds.contains(k) {
                let i = choose|i: int| 0 <= i < kinds.len() && kinds[i] == k;
            }
        }
    }
    s
}

/// An item: only `def` opens one; anything else records an error and
/// consumes one token unless it is a closing brace or the end of input.
pub fn item(p: &mut Parser)
    requires
        old(p).pwf(),
    ensures
        prod(*old(p), *final(p)),
        final(p).cur() > old(p).cur() || final(p).nth_spec(0) == SyntaxKind::CloseBrace
            || final(p).nth_spec(0) == SyntaxKind::Eof,
        old(p).nth_spec(0) == SyntaxKind::DefKw ==> final(p).evs()[old(p).evs().len() as int]
            == (Event::StartNode { kind: SyntaxKind::DefItem, forward_parent: None }),
        old(p).nth_spec(0) != SyntaxKind::DefKw ==> ({
            let k0 = old(p).nth_spec(0);
            // no item node: only the diagnostic, plus one bogus token wrapped
            // in an Error node unless at a closing brace or the end
            if k0 == SyntaxKind::CloseBrace {
                pushed_error(old(p).evs(), final(p).evs(), "Expected an item"@) && final(p).cur()
                    == old(p).cur()
            } else if k0 != SyntaxKind::Eof {
                err_node_seg(old(p).evs(), final(p).evs(), "Expected an item"@, Some(k0))
                    && final(p).cur() == old(p).cur() + 1
            } else {
                err_node_seg(old(p).evs(), final(p).evs(), "Expected an item"@, None)
                    && final(p).cur() == old(p).cur()
            }
        }),
{
    let ghost entry = *p;
    if p.peek() == SyntaxKind::DefKw {
        def_item(p);
    } else {
        p.err_recover("Expected an item", KindSet::empty());
        proof {
            lemma_prod_err_recover(entry, *p, "Expected an item"@);
        }
    }
}

/// `def`, a name, a parameter list, an optional `-> type` return
/// annotation, and a block body.
pub fn def_item(p: &mut Parser)
    requires
        old(p).pwf(),
        old(p).nth_spec(0) == SyntaxKind::DefKw,
    ensures
        prod(*old(p), *final(p)),
        final(p).cur() > old(p).cur(),
        final(p).evs()[old(p).evs().len() as int] == (Event::StartNode {
            kind: SyntaxKind::DefItem,
            forward_parent: None,
        }),
        final(p).evs()[old(p).evs().len() as int + 1] == (Event::AddToken {
            kind: SyntaxKind::DefKw,
            token_count: 1,
        }),
        old(p).nth_spec(1) == SyntaxKind::Ident ==> final(p).evs()[old(p).evs().len() as int + 2]
            == (Event::AddToken { kind: SyntaxKind::Ident, token_count: 1 }),
        old(p).nth_spec(1) != SyntaxKind::Ident ==> (match final(p).evs()[old(
            p,
        ).evs().len() as int + 2] {
            Event::Error(s) => s@ == "expected "@ + crate::syntax_kind::kind_name_spec(
                SyntaxKind::Ident,
            ),
            _ => false,
        }),
        // whatever the parameter list did, a block node follows: recovery in
        // one production does not corrupt its sibling
        exists|j: int|
            old(p).evs().len() <= j < final(p).evs().len() && #[trigger] final(p).evs()[j]
                == (Event::StartNode { kind: SyntaxKind::Block, forward_parent: None }),
        final(p).evs().last() == Event::FinishNode,
{
    let ghost entry = *p;
    let m = p.start();
    let ghost s1 = *p;
    proof {
        lemma_prod_push(entry, s1, tombstone_spec());
    }
    proof {
        assert(s1.evs()[m.pos_spec()] == tombstone_spec());
    }
    p.bump(SyntaxKind::DefKw);
    let ghost s2 = *p;
    proof {
        lemma_prod_push(s1, s2, Event::AddToken { kind: SyntaxKind::DefKw, token_count: 1 });
        lemma_prod_trans(entry, s1, s2);
        assert(s2.evs()[m.pos_spec()] == tombstone_spec());
    }

    expect_step(p, SyntaxKind::Ident);
    let ghost s3 = *p;
    proof {
        lemma_prod_trans(entry, s2, s3);
        lemma_prefix_index(s2.evs(), s3.evs(), m.pos_spec());
        assert(s3.evs()[m.pos_spec()] == tombstone_spec());
        lemma_prefix_index(s2.evs(), s3.evs(), m.pos_spec() + 1);
        assert(s3.evs()[m.pos_spec() + 1] == (Event::AddToken {
            kind: SyntaxKind::DefKw,
            token_count: 1,
        }));
        assert(s2.nth_spec(0) == entry.nth_spec(1));
        assert(s2.nth_at_spec(0, SyntaxKind::Ident) == (entry.nth_spec(1) == SyntaxKind::Ident));
        if s2.nth_at_spec(0, SyntaxKind::Ident) {
            assert(crate::parser::tcount_at(s2, SyntaxKind::Ident) == 1);
            assert(s3.evs()[m.pos_spec() + 2] == (Event::AddToken {
                kind: SyntaxKind::Ident,
                token_count: 1,
            }));
        } else {
            assert(s3.evs()[m.pos_spec() + 2] == s3.evs().last());
        }
        assert(s3.evs().len() == m.pos_spec() + 3);
    }

    param_list(p);
    let ghost s4 = *p;
    proof {
        lemma_prod_trans(entry, s3, s4);
        lemma_prefix_index(s3.evs(), s4.evs(), m.pos_spec());
        assert(s4.evs()[m.pos_spec()] == tombstone_spec());
        lemma_prefix_index(s3.evs(), s4.evs(), m.pos_spec() + 1);
        lemma_prefix_index(s3.evs(), s4.evs(), m.pos_spec() + 2);
    }

    if p.eat(SyntaxKind::Arrow) {
        let ghost s5 = *p;
        proof {
            lemma_prod_push(
                s4,
                s5,
                Event::AddToken {
                    kind: SyntaxKind::Arrow,
                    token_count: crate::parser::tcount_at(s4, SyntaxKind::Arrow) as usize,
                },
            );
            lemma_prod_trans(entry, s4, s5);
            assert(s5.evs()[m.pos_spec()] == tombstone_spec());
        }
        types::type_(p);
        proof {
            lemma_prod_trans(entry, s5, *p);
            lemma_prefix_index(s5.evs(), p.evs(), m.pos_spec());
            assert(p.evs()[m.pos_spec()] == tombstone_spec());
            lemma_prefix_index(s5.evs(), p.evs(), m.pos_spec() + 1);
            lemma_prefix_index(s5.evs(), p.evs(), m.pos_spec() + 2);
        }
    }
    let ghost s6 = *p;
    proof {
        assert(prod(entry, s6));
        assert(s6.evs()[m.pos_spec()] == tombstone_spec());
        assert(s6.evs()[m.pos_spec() + 1] == s4.evs()[m.pos_spec() + 1]);
        assert(s6.evs()[m.pos_spec() + 2] == s4.evs()[m.pos_spec() + 2]);
        assert(s6.evs().len() >= s4.evs().len());
        assert(s6.evs().len() >= m.pos_spec() + 3);
    }

    block(p);
    let ghost s7 = *p;
    let ghost bj = s6.evs().len() as int;
    proof {
        lemma_prod_trans(entry, s6, s7);
        lemma_prefix_index(s6.evs(), s7.evs(), m.pos_spec());
        assert(s7.evs()[m.pos_spec()] == tombstone_spec());
        lemma_prefix_index(s6.evs(), s7.evs(), m.pos_spec() + 1);
        lemma_prefix_index(s6.evs(), s7.evs(), m.pos_spec() + 2);
        assert(s7.evs().len() >= bj + 3);
        assert(s7.evs()[bj] == (Event::StartNode {
            kind: SyntaxKind::Block,
            forward_parent: None,
        }));
    }
    m.complete(p, SyntaxKind::DefItem);
    proof {
        lemma_prod_complete(entry, s7, *p, m.pos_spec(), SyntaxKind::DefItem);
        assert(bj != m.pos_spec());
        assert(p.evs()[bj] == (Event::StartNode {
            kind: SyntaxKind::Block,
            forward_parent: None,
        }));
    }
}

/// A parenthesized, comma-separated parameter list.  A token that cannot
/// start a parameter abandons the whole list — a half-built node the tree
/// consumer could not trust — leaving only the diagnostic behind.
pub fn param_list(p: &mut Parser)
    requires
        old(p).pwf(),
    ensures
        prod(*old(p), *final(p)),
        ({
            // either the list node was completed ...
            final(p).evs()[old(p).evs().len() as int] == (Event::StartNode {
                kind: SyntaxKind::ParamList,
                forward_parent: None,
            })
            // ... or it was abandoned wholesale: the placeholder stays a
            // tombstone (no ParamList node reaches the tree), the diagnostic
            // is the last event, and the offending token is not consumed
            || (final(p).evs()[old(p).evs().len() as int] == tombstone_spec() && (
            match final(p).evs().last() {
                Event::Error(s) => s@ == "Expected parameter"@,
                _ => false,
            }) && final(p).nth_spec(0) != SyntaxKind::Ident && final(p).nth_spec(0)
                != SyntaxKind::CloseParen && final(p).nth_spec(0) != SyntaxKind::Eof)
        }),
        old(p).nth_spec(0) == SyntaxKind::OpenParen ==> final(p).evs()[old(
            p,
        ).evs().len() as int + 1] == (Event::AddToken {
            kind: SyntaxKind::OpenParen,
            token_count: 1,
        }),
        old(p).nth_spec(0) != SyntaxKind::OpenParen ==> (match final(p).evs()[old(
            p,
        ).evs().len() as int + 1] {
            Event::Error(s) => s@ == "expected "@ + crate::syntax_kind::kind_name_spec(
                SyntaxKind::OpenParen,
            ),
            _ => false,
        }),
{
    let ghost entry = *p;
    let m = p.start();
    let ghost s1 = *p;
    proof {
        lemma_prod_push(entry, s1, tombstone_spec());
    }

    expect_step(p, SyntaxKind::OpenParen);
    let ghost s2 = *p;
    proof {
        lemma_prod_trans(entry, s1, s2);
        lemma_prefix_index(s1.evs(), s2.evs(), m.pos_spec());
        assert(s1.nth_spec(0) == entry.nth_spec(0));
        assert(s1.nth_at_spec(0, SyntaxKind::OpenParen) == (entry.nth_spec(0)
            == SyntaxKind::OpenParen));
        assert(s2.evs().len() == m.pos_spec() + 2);
        if s1.nth_at_spec(0, SyntaxKind::OpenParen) {
            assert(crate::parser::tcount_at(s1, SyntaxKind::OpenParen) == 1);
            assert(s2.evs()[m.pos_spec() + 1] == (Event::AddToken {
                kind: SyntaxKind::OpenParen,
                token_count: 1,
            }));
        } else {
            assert(s2.evs()[m.pos_spec() + 1] == s2.evs().last());
            assert(match s2.evs()[m.pos_spec() + 1] {
                Event::Error(msg) => msg@ == "expected "@ + crate::syntax_kind::kind_name_spec(
                    SyntaxKind::OpenParen,
                ),
                _ => false,
            });
        }
        assert(entry.nth_spec(0) == SyntaxKind::OpenParen ==> s2.evs()[m.pos_spec() + 1] == (
        Event::AddToken { kind: SyntaxKind::OpenParen, token_count: 1 }));
        assert(entry.nth_spec(0) != SyntaxKind::OpenParen ==> (match s2.evs()[m.pos_spec() + 1] {
            Event::Error(msg) => msg@ == "expected "@ + crate::syntax_kind::kind_name_spec(
                SyntaxKind::OpenParen,
            ),
            _ => false,
        }));
    }

    while !p.at(SyntaxKind::CloseParen) && !p.at(SyntaxKind::Eof)
        invariant
            entry == *old(p),
            p.pwf(),
            prod(entry, *p),
            m.pos_spec() == entry.evs().len(),
            m.pos_spec() + 1 < p.evs().len(),
            p.evs()[m.pos_spec()] == tombstone_spec(),
            entry.nth_spec(0) == SyntaxKind::OpenParen ==> p.evs()[m.pos_spec() + 1] == (
            Event::AddToken { kind: SyntaxKind::OpenParen, token_count: 1 }),
            entry.nth_spec(0) != SyntaxKind::OpenParen ==> (match p.evs()[m.pos_spec() + 1] {
                Event::Error(s) => s@ == "expected "@ + crate::syntax_kind::kind_name_spec(
                    SyntaxKind::OpenParen,
                ),
                _ => false,
            }),
        decreases p.kinds().len() - p.cur(),
    {
        let ghost top = *p;
        proof {
            assert(top.nth_spec(0) != SyntaxKind::CloseParen && top.nth_spec(0) != SyntaxKind::Eof);
            assert(top.cur() < top.kinds().len());
        }
        if !p.at_set(param_start()) {
            let msg = <String as vstd::string::StringExecFns>::from_str("Expected parameter");
            p.error(msg);
            let ghost s2a = *p;
            proof {
                lemma_prod_push(top, s2a, s2a.evs().last());
                lemma_prod_trans(entry, top, s2a);
                assert(m.pos_spec() < s2a.evs().len() - 1);
            }
            m.abandon(p);
            proof {
                lemma_prod_abandon(entry, s2a, *p, m.pos_spec());
                assert(p.evs()[m.pos_spec() + 1] == top.evs()[m.pos_spec() + 1]);
            }
            return ;
        }

        param(p);
        let ghost s3 = *p;
        proof {
            lemma_prod_trans(entry, top, s3);
            lemma_prefix_index(top.evs(), s3.evs(), m.pos_spec());
            lemma_prefix_index(top.evs(), s3.evs(), m.pos_spec() + 1);
            assert(s3.cur() > top.cur());
        }

        if !p.at(SyntaxKind::CloseParen) {
            expect_step(p, SyntaxKind::Comma);
            proof {
                lemma_prod_trans(entry, s3, *p);
                lemma_prefix_index(s3.evs(), p.evs(), m.pos_spec());
                lemma_prefix_index(s3.evs(), p.evs(), m.pos_spec() + 1);
            }
        }
    }
    let ghost s_exit = *p;

    expect_step(p, SyntaxKind::CloseParen);
    let ghost s4 = *p;
    proof {
        lemma_prod_trans(entry, s_exit, s4);
        lemma_prefix_index(s_exit.evs(), s4.evs(), m.pos_spec());
        assert(s4.evs()[m.pos_spec()] == tombstone_spec());
        lemma_prefix_index(s_exit.evs(), s4.evs(), m.pos_spec() + 1);
    }
    m.complete(p, SyntaxKind::ParamList);
    proof {
        lemma_prod_complete(entry, s4, *p, m.pos_spec(), SyntaxKind::ParamList);
    }
}

/// One parameter: a name, a colon, and its type.
pub fn param(p: &mut Parser)
    requires
        old(p).pwf(),
        old(p).nth_spec(0) == SyntaxKind::Ident,
    ensures
        prod(*old(p), *final(p)),
        final(p).cur() > old(p).cur(),
        final(p).evs()[old(p).evs().len() as int] == (Event::StartNode {
            kind: SyntaxKind::Param,
            forward_parent: None,
        }),
        final(p).evs().last() == Event::FinishNode,
{
    let ghost entry = *p;
    let m = p.start();
    let ghost s1 = *p;
    proof {
        lemma_prod_push(entry, s1, tombstone_spec());
    }
    proof {
        assert(s1.evs()[m.pos_spec()] == tombstone_spec());
    }
    expect_step(p, SyntaxKind::Ident);
    let ghost s2 = *p;
    proof {
        lemma_prod_trans(entry, s1, s2);
        lemma_prefix_index(s1.evs(), s2.evs(), m.pos_spec());
        assert(s2.evs()[m.pos_spec()] == tombstone_spec());
    }
    expect_step(p, SyntaxKind::Colon);
    let ghost s3 = *p;
    proof {
        lemma_prod_trans(entry, s2, s3);
        lemma_prefix_index(s2.evs(), s3.evs(), m.pos_spec());
        assert(s3.evs()[m.pos_spec()] == tombstone_spec());
    }
    types::type_(p);
    let ghost s4 = *p;
    proof {
        lemma_prod_trans(entry, s3, s4);
        lemma_prefix_index(s3.evs(), s4.evs(), m.pos_spec());
        assert(s4.evs()[m.pos_spec()] == tombstone_spec());
    }
    m.complete(p, SyntaxKind::Param);
    proof {
        lemma_prod_complete(entry, s4, *p, m.pos_spec(), SyntaxKind::Param);
    }
}

/// A brace-delimited block of statements.  The loop ends at the closing
/// brace or the end of input; recovery inside `stmt` otherwise always
/// consumes, so it terminates on any input.
pub fn block(p: &mut Parser)
    requires
        old(p).pwf(),
    ensures
        prod(*old(p), *final(p)),
        final(p).evs().len() >= old(p).evs().len() + 3,
        final(p).evs()[old(p).evs().len() as int] == (Event::StartNode {
            kind: SyntaxKind::Block,
            forward_parent: None,
        }),
        old(p).nth_spec(0) == SyntaxKind::OpenBrace ==> final(p).evs()[old(
            p,
        ).evs().len() as int + 1] == (Event::AddToken {
            kind: SyntaxKind::OpenBrace,
            token_count: 1,
        }),
        old(p).nth_spec(0) != SyntaxKind::OpenBrace ==> (match final(p).evs()[old(
            p,
        ).evs().len() as int + 1] {
            Event::Error(s) => s@ == "expected "@ + crate::syntax_kind::kind_name_spec(
                SyntaxKind::OpenBrace,
            ),
            _ => false,
        }),
        final(p).evs().last() == Event::FinishNode,
{
    let ghost entry = *p;
    let m = p.start();
    let ghost s1 = *p;
    proof {
        lemma_prod_push(entry, s1, tombstone_spec());
    }

    expect_step(p, SyntaxKind::OpenBrace);
    let ghost s2 = *p;
    proof {
        lemma_prod_trans(entry, s1, s2);
        lemma_prefix_index(s1.evs(), s2.evs(), m.pos_spec());
        assert(s1.nth_spec(0) == entry.nth_spec(0));
        assert(s1.nth_at_spec(0, SyntaxKind::OpenBrace) == (entry.nth_spec(0)
            == SyntaxKind::OpenBrace));
        assert(s2.evs().len() == m.pos_spec() + 2);
        if s1.nth_at_spec(0, SyntaxKind::OpenBrace) {
            assert(crate::parser::tcount_at(s1, SyntaxKind::OpenBrace) == 1);
            assert(s2.evs()[m.pos_spec() + 1] == (Event::AddToken {
                kind: SyntaxKind::OpenBrace,
                token_count: 1,
            }));
        } else {
            assert(s2.evs()[m.pos_spec() + 1] == s2.evs().last());
            assert(match s2.evs()[m.pos_spec() + 1] {
                Event::Error(msg) => msg@ == "expected "@ + crate::syntax_kind::kind_name_spec(
                    SyntaxKind::OpenBrace,
                ),
                _ => false,
            });
        }
        assert(entry.nth_spec(0) == SyntaxKind::OpenBrace ==> s2.evs()[m.pos_spec() + 1] == (
        Event::AddToken { kind: SyntaxKind::OpenBrace, token_count: 1 }));
        assert(entry.nth_spec(0) != SyntaxKind::OpenBrace ==> (match s2.evs()[m.pos_spec() + 1] {
            Event::Error(msg) => msg@ == "expected "@ + crate::syntax_kind::kind_name_spec(
                SyntaxKind::OpenBrace,
            ),
            _ => false,
        }));
    }

    while !p.at(SyntaxKind::CloseBrace) && !p.at(SyntaxKind::Eof)
        invariant
            p.pwf(),
            prod(entry, *p),
            m.pos_spec() == entry.evs().len(),
            m.pos_spec() + 1 < p.evs().len(),
            p.evs()[m.pos_spec()] == tombstone_spec(),
            entry.nth_spec(0) == SyntaxKind::OpenBrace ==> p.evs()[m.pos_spec() + 1] == (
            Event::AddToken { kind: SyntaxKind::OpenBrace, token_count: 1 }),
            entry.nth_spec(0) != SyntaxKind::OpenBrace ==> (match p.evs()[m.pos_spec() + 1] {
                Event::Error(s) => s@ == "expected "@ + crate::syntax_kind::kind_name_spec(
                    SyntaxKind::OpenBrace,
                ),
                _ => false,
            }),
        decreases p.kinds().len() - p.cur(),
    {
        let ghost top = *p;
        proof {
            assert(top.nth_spec(0) != SyntaxKind::CloseBrace && top.nth_spec(0) != SyntaxKind::Eof);
            assert(top.cur() < top.kinds().len());
        }
        stmts::stmt(p);
        proof {
            lemma_prod_trans(entry, top, *p);
            lemma_prefix_index(top.evs(), p.evs(), m.pos_spec());
            lemma_prefix_index(top.evs(), p.evs(), m.pos_spec() + 1);
            // recovery never stalls here: a stalled stmt means the cursor sits
            // at a closing brace or the end, and the loop would have stopped
            assert(p.cur() > top.cur());
        }
    }

    let ghost s_exit = *p;
    expect_step(p, SyntaxKind::CloseBrace);
    let ghost s4 = *p;
    proof {
        lemma_prod_trans(entry, s_exit, s4);
        lemma_prefix_index(s_exit.evs(), s4.evs(), m.pos_spec());
        assert(s4.evs()[m.pos_spec()] == tombstone_spec());
        lemma_prefix_index(s_exit.evs(), s4.evs(), m.pos_spec() + 1);
    }
    m.complete(p, SyntaxKind::Block);
    proof {
        lemma_prod_complete(entry, s4, *p, m.pos_spec(), SyntaxKind::Block);
    }
}

} // verus!
