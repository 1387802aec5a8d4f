use vstd::prelude::*;
use crate::event::{tombstone_spec, Event};
use crate::grammar::{
    lemma_prefix_index, lemma_prod_complete, lemma_prod_err_recover, lemma_prod_push,
    lemma_prod_trans, prod,
};
use crate::kind_set::KindSet;
use crate::parser::{err_node_seg, pushed_error, Parser};
use crate::syntax_kind::SyntaxKind;

verus! {

/// The kinds a type annotation may start with.
pub fn type_start() -> (s: KindSet)
    ensures
        forall|k: SyntaxKind| #[trigger] s.has(k) <==> k == SyntaxKind::Ident,
{
    let s = KindSet::new(&[SyntaxKind::Ident]);
    proof {
        assert forall|k: SyntaxKind| #[trigger] s.has(k) <==> k == SyntaxKind::Ident by {
            let kinds = seq![SyntaxKind::Ident];
            if k == SyntaxKind::Ident {
                assert(kinds[0] == k);
                assert(kinds.contains(k));
            }
            if kinds.contains(k) {
                let i = choose|i: int| 0 <= i < kinds.len() && kinds[i] == k;
                assert(k == SyntaxKind::Ident);
            }
        }
    }
    s
}

/// Where a malformed type annotation stops recovery: the tokens that close
/// or continue the surrounding parameter list.
pub fn type_recovery() -> (s: KindSet)
    ensures
        forall|k: SyntaxKind| #[trigger] s.has(k) <==> (k == SyntaxKind::CloseParen || k
            == SyntaxKind::Comma),
{
    let s = KindSet::new(&[SyntaxKind::CloseParen, SyntaxKind::Comma]);
    proof {
        assert forall|k: SyntaxKind| #[trigger] s.has(k) <==> (k == SyntaxKind::CloseParen || k
            == SyntaxKind::Comma) by {
            let kinds = seq![SyntaxKind::CloseParen, SyntaxKind::Comma];
            if k == SyntaxKind::CloseParen {
                assert(kinds[0] == k);
                assert(kinds.contains(k));
            }
            if k == SyntaxKind::Comma {
                assert(kinds[1] == k);
                assert(kinds.contains(k));
            }
            if kinds.contains(k) {
                let i = choose|i: int| 0 <= i < kinds.len() && kinds[i] == k;
                assert(k == SyntaxKind::CloseParen || k == SyntaxKind::Comma);
            }
        }
    }
    s
}

/// A type annotation: a bare name becomes a `NameType` node, anything else
/// is a recorded error with recovery against the parameter-list delimiters.
pub fn type_(p: &mut Parser)
    requires
        old(p).pwf(),
    ensures
        prod(*old(p), *final(p)),
        old(p).nth_spec(0) == SyntaxKind::Ident ==> final(p).cur() == old(p).cur() + 1
            && final(p).evs() == old(p).evs() + seq![
            Event::StartNode { kind: SyntaxKind::NameType, forward_parent: None },
            Event::AddToken { kind: SyntaxKind::Ident, token_count: 1 },
            Event::FinishNode,
        ],
        old(p).nth_spec(0) != SyntaxKind::Ident ==> ({
            let k0 = old(p).nth_spec(0);
            // recovery never consumes the enclosing list's delimiters
            if k0 == SyntaxKind::CloseBrace || k0 == SyntaxKind::CloseParen || k0
                == SyntaxKind::Comma {
                pushed_error(old(p).evs(), final(p).evs(), "Expected type"@) && final(p).cur()
                    == old(p).cur()
            } else if k0 != SyntaxKind::Eof {
                err_node_seg(old(p).evs(), final(p).evs(), "Expected type"@, Some(k0))
                    && final(p).cur() == old(p).cur() + 1
            } else {
                err_node_seg(old(p).evs(), final(p).evs(), "Expected type"@, None)
                    && final(p).cur() == old(p).cur()
            }
        }),
{
    let ghost entry = *p;
    if p.peek() == SyntaxKind::Ident {
        let m = p.start();
        let ghost s1 = *p;
        p.bump_any();
        let ghost s2 = *p;
        proof {
            lemma_prod_push(entry, s1, tombstone_spec());
            lemma_prod_push(
                s1,
                s2,
                crate::event::Event::AddToken { kind: SyntaxKind::Ident, token_count: 1 },
            );
            lemma_prod_trans(entry, s1, s2);
            assert(s2.evs()[m.pos_spec()] == tombstone_spec());
        }
        m.complete(p, SyntaxKind::NameType);
        proof {
            lemma_prod_complete(entry, s2, *p, m.pos_spec(), SyntaxKind::NameType);
            assert(p.evs() =~= entry.evs() + seq![
                Event::StartNode { kind: SyntaxKind::NameType, forward_parent: None },
                Event::AddToken { kind: SyntaxKind::Ident, token_count: 1 },
                Event::FinishNode,
            ]);
        }
    } else {
        p.err_recover("Expected type", type_recovery());
        proof {
            lemma_prod_err_recover(entry, *p, "Expected type"@);
        }
    }
}

} // verus!
