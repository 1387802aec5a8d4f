use vstd::prelude::*;
use crate::event::{
    finish_count, is_live_start, is_start, lemma_counts_concat, lemma_counts_congruence,
    lemma_counts_update, live_count, seg_balanced, tombstone_spec, Event,
};
use crate::parser::{CompletedMarker, Parser};
use crate::syntax_kind::SyntaxKind;

pub mod expr;
pub mod items;
pub mod stmts;
pub mod types;

verus! {

/// What every grammar production guarantees: the parser invariant is kept,
/// the input view is untouched, the log only grows (events already written
/// keep their place), the cursor never moves backwards, and the appended
/// segment is balanced — every marker the production opened was completed
/// or abandoned before it returned.
pub open spec fn prod(pre: Parser, post: Parser) -> bool {
    &&& post.pwf()
    &&& post.kinds() == pre.kinds()
    &&& post.joints() == pre.joints()
    &&& pre.evs().len() <= post.evs().len()
    &&& post.evs().subrange(0, pre.evs().len() as int) == pre.evs()
    &&& pre.cur() <= post.cur()
    &&& seg_balanced(post.evs().skip(pre.evs().len() as int))
}

/// A production returning a completed node guarantees where it stands and
/// which kind its start event carries.
pub open spec fn cm_ok(pre: Parser, post: Parser, cm: CompletedMarker) -> bool {
    &&& pre.evs().len() <= cm.pos_spec() < post.evs().len()
    &&& match post.evs()[cm.pos_spec()] {
        Event::StartNode { kind, .. } => kind == cm.kind_spec() && kind != SyntaxKind::Tombstone,
        _ => false,
    }
}

/// An entry below a preserved prefix is unchanged.
pub proof fn lemma_prefix_index(a: Seq<Event>, b: Seq<Event>, i: int)
    requires
        a.len() <= b.len(),
        b.subrange(0, a.len() as int) == a,
        0 <= i < a.len(),
    ensures
        b[i] == a[i],
{
    assert(b.subrange(0, a.len() as int)[i] == b[i]);
}

/// Production effects compose.
pub proof fn lemma_prod_trans(a: Parser, b: Parser, c: Parser)
    requires
        prod(a, b),
        prod(b, c),
    ensures
        prod(a, c),
{
    let na = a.evs().len() as int;
    let nb = b.evs().len() as int;
    assert(c.evs().subrange(0, na) =~= a.evs()) by {
        assert forall|i: int| 0 <= i < na implies c.evs().subrange(0, na)[i] == a.evs()[i] by {
            lemma_prefix_index(b.evs(), c.evs(), i);
            lemma_prefix_index(a.evs(), b.evs(), i);
        }
    }
    let s1 = b.evs().skip(na);
    let s2 = c.evs().skip(nb);
    assert(c.evs().skip(na) =~= s1 + s2) by {
        assert forall|i: int| 0 <= i < c.evs().len() - na implies c.evs().skip(na)[i] == (s1
            + s2)[i] by {
            if i < nb - na {
                lemma_prefix_index(b.evs(), c.evs(), na + i);
            }
        }
    }
    crate::event::lemma_seg_balanced_concat(s1, s2);
}

/// A production that only pushed one balanced-neutral event.
pub proof fn lemma_prod_push(pre: Parser, post: Parser, e: Event)
    requires
        pre.pwf(),
        post.pwf(),
        post.kinds() == pre.kinds(),
        post.joints() == pre.joints(),
        post.evs() == pre.evs().push(e),
        pre.cur() <= post.cur(),
        !(e is FinishNode),
        !is_live_start(e),
    ensures
        prod(pre, post),
{
    let n = pre.evs().len() as int;
    assert(post.evs().subrange(0, n) =~= pre.evs());
    let seg = post.evs().skip(n);
    assert(seg =~= seq![e]);
    assert(seg[0] == e);
    assert(live_count(seg, 0) == 0 && finish_count(seg, 0) == 0);
    assert(live_count(seg, 1) == 0);
    assert(finish_count(seg, 1) == 0);
    assert(seg_balanced(seg)) by {
        assert forall|k: int| 0 <= k <= 1 implies finish_count(seg, k) <= live_count(seg, k) by {
            assert(finish_count(seg, 0) == 0 && live_count(seg, 0) == 0);
        }
    }
}

/// A production step that did not touch the log at all.
pub proof fn lemma_prod_same(pre: Parser, post: Parser)
    requires
        pre.pwf(),
        post.pwf(),
        post.kinds() == pre.kinds(),
        post.joints() == pre.joints(),
        post.evs() == pre.evs(),
        pre.cur() <= post.cur(),
    ensures
        prod(pre, post),
{
    let n = pre.evs().len() as int;
    assert(post.evs().subrange(0, n) =~= pre.evs());
    let seg = post.evs().skip(n);
    assert(seg =~= Seq::<Event>::empty());
    assert(live_count(seg, 0) == 0 && finish_count(seg, 0) == 0);
    assert(seg_balanced(seg));
}

/// Completing a marker the production opened itself keeps its segment
/// balanced: one placeholder becomes a live start, and the matching finish
/// lands at the very end.
pub proof fn lemma_prod_complete(
    entry: Parser,
    pre: Parser,
    post: Parser,
    mpos: int,
    kind: SyntaxKind,
)
    requires
        prod(entry, pre),
        entry.evs().len() <= mpos < pre.evs().len(),
        pre.evs()[mpos] == tombstone_spec(),
        kind != SyntaxKind::Tombstone,
        post.pwf(),
        post.kinds() == pre.kinds(),
        post.joints() == pre.joints(),
        post.evs() == pre.evs().update(
            mpos,
            Event::StartNode { kind, forward_parent: None },
        ).push(Event::FinishNode),
        pre.cur() <= post.cur(),
    ensures
        prod(entry, post),
{
    let n = entry.evs().len() as int;
    let np = pre.evs().len() as int;
    let e = Event::StartNode { kind, forward_parent: None };
    let up = pre.evs().update(mpos, e);
    assert(post.evs().subrange(0, n) =~= entry.evs()) by {
        assert forall|i: int| 0 <= i < n implies post.evs().subrange(0, n)[i] == entry.evs()[i] by {
            lemma_prefix_index(entry.evs(), pre.evs(), i);
        }
    }
    let seg = pre.evs().skip(n);
    let seg2 = post.evs().skip(n);
    let j = mpos - n;
    assert(seg2 =~= seg.update(j, e).push(Event::FinishNode));
    assert(seg[j] == tombstone_spec());
    // counts of the updated-and-extended segment
    assert forall|k: int| 0 <= k <= seg2.len() implies finish_count(seg2, k) <= live_count(
        seg2,
        k,
    ) by {
        if k <= seg.len() {
            lemma_counts_congruence(seg2, seg.update(j, e), k);
            lemma_counts_update(seg, j, e, k);
            assert(finish_count(seg, k) <= live_count(seg, k));
        } else {
            lemma_counts_congruence(seg2, seg.update(j, e), seg.len() as int);
            lemma_counts_update(seg, j, e, seg.len() as int);
            assert(finish_count(seg, seg.len() as int) <= live_count(seg, seg.len() as int));
        }
    }
    lemma_counts_congruence(seg2, seg.update(j, e), seg.len() as int);
    lemma_counts_update(seg, j, e, seg.len() as int);
    assert(live_count(seg2, seg2.len() as int) == live_count(seg, seg.len() as int) + 1);
    assert(finish_count(seg2, seg2.len() as int) == finish_count(seg, seg.len() as int) + 1);
}

/// Abandoning a marker the production opened itself: the placeholder either
/// vanishes from the end of the log or stays behind as a tombstone; the
/// segment stays balanced either way.
pub proof fn lemma_prod_abandon(entry: Parser, pre: Parser, post: Parser, mpos: int)
    requires
        prod(entry, pre),
        entry.evs().len() <= mpos < pre.evs().len(),
        pre.evs()[mpos] == tombstone_spec(),
        post.pwf(),
        post.kinds() == pre.kinds(),
        post.joints() == pre.joints(),
        pre.cur() <= post.cur(),
        mpos == pre.evs().len() - 1 ==> post.evs() == pre.evs().drop_last(),
        mpos != pre.evs().len() - 1 ==> post.evs() == pre.evs(),
    ensures
        prod(entry, post),
{
    let n = entry.evs().len() as int;
    if mpos == pre.evs().len() - 1 {
        assert(post.evs().subrange(0, n) =~= entry.evs()) by {
            assert forall|i: int| 0 <= i < n implies post.evs().subrange(0, n)[i]
                == entry.evs()[i] by {
                lemma_prefix_index(entry.evs(), pre.evs(), i);
            }
        }
        let seg = pre.evs().skip(n);
        let seg2 = post.evs().skip(n);
        assert(seg2 =~= seg.drop_last());
        assert forall|k: int| 0 <= k <= seg2.len() implies finish_count(seg2, k) <= live_count(
            seg2,
            k,
        ) by {
            lemma_counts_congruence(seg2, seg, k);
            assert(finish_count(seg, k) <= live_count(seg, k));
        }
        lemma_counts_congruence(seg2, seg, seg2.len() as int);
        assert(seg.last() == tombstone_spec());
        assert(live_count(seg, seg.len() as int) == live_count(seg, seg.len() - 1));
        assert(finish_count(seg, seg.len() as int) == finish_count(seg, seg.len() - 1));
    }
}

/// An update that only sets a forward parent changes no counts and keeps
/// the production segment balanced.
pub proof fn lemma_prod_set_fp(entry: Parser, pre: Parser, post: Parser, mpos: int, e: Event)
    requires
        prod(entry, pre),
        entry.evs().len() <= mpos < pre.evs().len(),
        post.pwf(),
        post.kinds() == pre.kinds(),
        post.joints() == pre.joints(),
        post.evs() == pre.evs().update(mpos, e),
        is_live_start(e) == is_live_start(pre.evs()[mpos]),
        !(e is FinishNode),
        !(pre.evs()[mpos] is FinishNode),
        pre.cur() <= post.cur(),
    ensures
        prod(entry, post),
{
    let n = entry.evs().len() as int;
    assert(post.evs().subrange(0, n) =~= entry.evs()) by {
        assert forall|i: int| 0 <= i < n implies post.evs().subrange(0, n)[i] == entry.evs()[i] by {
            lemma_prefix_index(entry.evs(), pre.evs(), i);
        }
    }
    let seg = pre.evs().skip(n);
    let seg2 = post.evs().skip(n);
    let j = mpos - n;
    assert(seg2 =~= seg.update(j, e));
    assert forall|k: int| 0 <= k <= seg2.len() implies finish_count(seg2, k) <= live_count(
        seg2,
        k,
    ) by {
        lemma_counts_update(seg, j, e, k);
        assert(finish_count(seg, k) <= live_count(seg, k));
    }
    lemma_counts_update(seg, j, e, seg.len() as int);
}

/// The two-step effect of `precede`: a fresh placeholder is pushed and the
/// completed node's start is linked to it; counts do not change.
pub proof fn lemma_prod_precede(entry: Parser, pre: Parser, post: Parser, cmpos: int, e: Event)
    requires
        prod(entry, pre),
        entry.evs().len() <= cmpos < pre.evs().len(),
        post.pwf(),
        post.kinds() == pre.kinds(),
        post.joints() == pre.joints(),
        post.evs() == pre.evs().push(tombstone_spec()).update(cmpos, e),
        is_live_start(e) == is_live_start(pre.evs()[cmpos]),
        !(e is FinishNode),
        !(pre.evs()[cmpos] is FinishNode),
        pre.cur() <= post.cur(),
    ensures
        prod(entry, post),
{
    let n = entry.evs().len() as int;
    let pu = pre.evs().push(tombstone_spec());
    assert(post.evs().subrange(0, n) =~= entry.evs()) by {
        assert forall|i: int| 0 <= i < n implies post.evs().subrange(0, n)[i] == entry.evs()[i] by {
            lemma_prefix_index(entry.evs(), pre.evs(), i);
        }
    }
    let seg = pre.evs().skip(n);
    let segp = pu.skip(n);
    let seg2 = post.evs().skip(n);
    let j = cmpos - n;
    assert(segp =~= seg.push(tombstone_spec()));
    assert(seg2 =~= segp.update(j, e));
    assert(segp[j] == seg[j]);
    assert forall|k: int| 0 <= k <= seg2.len() implies finish_count(seg2, k) <= live_count(
        seg2,
        k,
    ) by {
        lemma_counts_update(segp, j, e, k);
        if k <= seg.len() {
            lemma_counts_congruence(segp, seg, k);
            assert(finish_count(seg, k) <= live_count(seg, k));
        } else {
            lemma_counts_congruence(segp, seg, seg.len() as int);
            assert(finish_count(seg, seg.len() as int) <= live_count(seg, seg.len() as int));
        }
    }
    lemma_counts_update(segp, j, e, segp.len() as int);
    lemma_counts_congruence(segp, seg, seg.len() as int);
}

/// The effect of `err_recover` on the log, in any of its three shapes,
/// appends a balanced segment.
pub proof fn lemma_prod_err_recover(pre: Parser, post: Parser, msg: Seq<char>)
    requires
        pre.pwf(),
        post.pwf(),
        post.kinds() == pre.kinds(),
        post.joints() == pre.joints(),
        pre.cur() <= post.cur(),
        crate::parser::pushed_error(pre.evs(), post.evs(), msg) || err_seg_some(
            pre.evs(),
            post.evs(),
            msg,
        ) || crate::parser::err_node_seg(pre.evs(), post.evs(), msg, None),
    ensures
        prod(pre, post),
{
    let n = pre.evs().len() as int;
    let seg = post.evs().skip(n);
    if crate::parser::pushed_error(pre.evs(), post.evs(), msg) {
        assert(seg =~= seq![post.evs().last()]);
        assert(!(seg[0] is FinishNode) && !is_live_start(seg[0]));
        assert(live_count(seg, 0) == 0 && finish_count(seg, 0) == 0);
        assert(live_count(seg, 1) == 0 && finish_count(seg, 1) == 0);
        assert forall|k: int| 0 <= k <= 1 implies finish_count(seg, k) <= live_count(seg, k) by {
            assert(finish_count(seg, 0) == 0 && live_count(seg, 0) == 0);
        }
    } else if err_seg_some(pre.evs(), post.evs(), msg) {
        let k0 = choose|k0: SyntaxKind|
            crate::parser::err_node_seg(pre.evs(), post.evs(), msg, Some(k0));
        assert(seg.len() == 4);
        assert(is_live_start(seg[0]));
        assert(!(seg[1] is FinishNode) && !is_live_start(seg[1]));
        assert(!(seg[2] is FinishNode) && !is_live_start(seg[2]));
        assert(seg[3] is FinishNode && !is_live_start(seg[3]));
        assert(live_count(seg, 0) == 0 && finish_count(seg, 0) == 0);
        assert(live_count(seg, 1) == 1 && finish_count(seg, 1) == 0);
        assert(live_count(seg, 2) == 1 && finish_count(seg, 2) == 0);
        assert(live_count(seg, 3) == 1 && finish_count(seg, 3) == 0);
        assert(live_count(seg, 4) == 1 && finish_count(seg, 4) == 1);
        assert forall|k: int| 0 <= k <= 4 implies finish_count(seg, k) <= live_count(seg, k) by {
            assert(finish_count(seg, 0) == 0 && live_count(seg, 0) == 0);
        }
    } else {
        assert(seg.len() == 3);
        assert(is_live_start(seg[0]));
        assert(!(seg[1] is FinishNode) && !is_live_start(seg[1]));
        assert(seg[2] is FinishNode && !is_live_start(seg[2]));
        assert(live_count(seg, 0) == 0 && finish_count(seg, 0) == 0);
        assert(live_count(seg, 1) == 1 && finish_count(seg, 1) == 0);
        assert(live_count(seg, 2) == 1 && finish_count(seg, 2) == 0);
        assert(live_count(seg, 3) == 1 && finish_count(seg, 3) == 1);
        assert forall|k: int| 0 <= k <= 3 implies finish_count(seg, k) <= live_count(seg, k) by {
            assert(finish_count(seg, 0) == 0 && live_count(seg, 0) == 0);
        }
    }
    assert(post.evs().subrange(0, n) =~= pre.evs());
}

/// The shape of a finished top-level log: it opens the root node first,
/// every proper prefix still has an unfinished node, and at the end every
/// kind-resolved start has been finished exactly once.  This is what lets
/// the linearizer hand the tree service one strictly well-nested
/// instruction sequence.
pub open spec fn root_log_ok(evs: Seq<Event>) -> bool {
    &&& evs.len() >= 2
    &&& is_live_start(evs[0])
    &&& live_count(evs, evs.len() as int) == finish_count(evs, evs.len() as int)
    &&& forall|k: int|
        0 < k < evs.len() ==> #[trigger] finish_count(evs, k) + 1 <= live_count(evs, k)
}

/// A start event, a balanced segment, and a final finish form a
/// well-shaped top-level log.
pub proof fn lemma_root_shape(start_e: Event, seg: Seq<Event>, evs: Seq<Event>)
    requires
        is_live_start(start_e),
        seg_balanced(seg),
        evs == seq![start_e] + seg.push(Event::FinishNode),
    ensures
        root_log_ok(evs),
{
    let a = seq![start_e];
    let b = seg.push(Event::FinishNode);
    assert(live_count(a, 0) == 0 && finish_count(a, 0) == 0);
    assert(a[0] == start_e);
    assert(live_count(a, 1) == 1 && finish_count(a, 1) == 0);
    assert forall|k: int| 0 < k <= evs.len() implies {
        &&& live_count(evs, k) == 1 + live_count(b, k - 1)
        &&& finish_count(evs, k) == finish_count(b, k - 1)
    } by {
        lemma_counts_concat(a, b, k - 1);
    }
    assert forall|j: int| 0 <= j <= b.len() implies {
        &&& live_count(b, j) == live_count(seg, if j <= seg.len() {
            j
        } else {
            seg.len() as int
        })
        &&& finish_count(b, j) == finish_count(seg, if j <= seg.len() {
            j
        } else {
            seg.len() as int
        }) + if j > seg.len() {
            1int
        } else {
            0int
        }
    } by {
        if j <= seg.len() {
            lemma_counts_congruence(b, seg, j);
        } else {
            lemma_counts_congruence(b, seg, seg.len() as int);
            assert(b[b.len() - 1] == Event::FinishNode);
        }
    }
    assert forall|k: int| 0 < k < evs.len() implies #[trigger] finish_count(evs, k) + 1
        <= live_count(evs, k) by {
        assert(finish_count(seg, k - 1) <= live_count(seg, k - 1));
    }
    assert(live_count(evs, evs.len() as int) == 1 + live_count(seg, seg.len() as int));
    assert(finish_count(evs, evs.len() as int) == finish_count(seg, seg.len() as int) + 1);
}

/// The whole parse: everything up to end of input is consumed into one
/// `Root` node.  A `let` opens a statement and a `def` a definition, by
/// their keywords; anything else is parsed as an expression.  An expression
/// that makes no progress (recovery stopped in front of a closing brace)
/// has already recorded its diagnostic, so the stray token is wrapped
/// silently and the parse moves on: the parser terminates on every input
/// and loses no token.
pub fn root(p: &mut Parser) -> (cm: CompletedMarker)
    requires
        old(p).pwf(),
        old(p).evs().len() == 0,
        forall|j: int| 0 <= j < old(p).kinds().len() ==> old(p).kinds()[j] != SyntaxKind::Eof,
    ensures
        final(p).pwf(),
        final(p).kinds() == old(p).kinds(),
        final(p).joints() == old(p).joints(),
        root_log_ok(final(p).evs()),
        final(p).cur() == final(p).kinds().len(),
        final(p).evs()[0] == (Event::StartNode {
            kind: SyntaxKind::Root,
            forward_parent: None,
        }),
        cm.pos_spec() == 0,
        cm.kind_spec() == SyntaxKind::Root,
        old(p).kinds().len() == 0 ==> final(p).evs() == seq![
            Event::StartNode { kind: SyntaxKind::Root, forward_parent: None },
            Event::FinishNode,
        ],
{
    let ghost entry = *p;
    let m = p.start();
    let ghost s1 = *p;
    proof {
        lemma_prod_push(entry, s1, tombstone_spec());
        assert(s1.evs()[m.pos_spec()] == tombstone_spec());
        assert(m.pos_spec() == 0);
        lemma_prod_same(s1, s1);
    }

    while !p.at(SyntaxKind::Eof)
        invariant
            entry == *old(p),
            entry.evs().len() == 0,
            s1.evs() == entry.evs().push(tombstone_spec()),
            s1.kinds() == entry.kinds(),
            m.pos_spec() == 0,
            p.pwf(),
            prod(s1, *p),
            p.evs()[0] == tombstone_spec(),
            entry.kinds().len() == 0 ==> p.evs() == s1.evs(),
        decreases p.kinds().len() - p.cur(),
    {
        let ghost top = *p;
        proof {
            assert(top.nth_spec(0) != SyntaxKind::Eof);
            assert(top.cur() < top.kinds().len());
            assert(entry.kinds().len() > 0);
        }
        let k = p.peek();
        if k == SyntaxKind::LetKw {
            crate::grammar::stmts::let_stmt(p);
            proof {
                lemma_prod_trans(s1, top, *p);
                lemma_prefix_index(top.evs(), p.evs(), 0);
            }
        } else if k == SyntaxKind::DefKw {
            crate::grammar::items::def_item(p);
            proof {
                lemma_prod_trans(s1, top, *p);
                lemma_prefix_index(top.evs(), p.evs(), 0);
            }
        } else {
            let before = p.position();
            crate::grammar::expr::expr(p);
            let ghost s2 = *p;
            proof {
                lemma_prod_trans(s1, top, s2);
                lemma_prefix_index(top.evs(), s2.evs(), 0);
            }
            if p.position() == before && !p.at(SyntaxKind::Eof) {
                let m2 = p.start();
                let ghost s3 = *p;
                p.bump_any();
                let ghost s4 = *p;
                proof {
                    lemma_prod_push(s2, s3, tombstone_spec());
                    lemma_prod_push(
                        s3,
                        s4,
                        Event::AddToken { kind: s3.nth_spec(0), token_count: 1 },
                    );
                    lemma_prod_trans(s2, s3, s4);
                    assert(s4.evs()[m2.pos_spec()] == tombstone_spec());
                }
                m2.complete(p, SyntaxKind::Error);
                proof {
                    lemma_prod_complete(s2, s4, *p, m2.pos_spec(), SyntaxKind::Error);
                    lemma_prod_trans(s1, s2, *p);
                    lemma_prefix_index(s2.evs(), p.evs(), 0);
                }
            }
        }
    }

    let ghost s_exit = *p;
    proof {
        assert(s_exit.nth_at_spec(0, SyntaxKind::Eof));
        assert(s_exit.nth_spec(0) == SyntaxKind::Eof);
        assert(s_exit.kinds() == entry.kinds());
        assert(s_exit.cur() >= s_exit.kinds().len());
    }
    let cm = m.complete(p, SyntaxKind::Root);
    proof {
        if entry.kinds().len() == 0 {
            assert(s_exit.evs() == s1.evs());
            assert(p.evs() =~= seq![
                Event::StartNode { kind: SyntaxKind::Root, forward_parent: None },
                Event::FinishNode,
            ]);
        }
        let seg = s_exit.evs().skip(1);
        assert(p.evs() =~= seq![Event::StartNode { kind: SyntaxKind::Root, forward_parent: None }]
            + seg.push(Event::FinishNode)) by {
            assert(p.evs() == s_exit.evs().update(
                0,
                Event::StartNode { kind: SyntaxKind::Root, forward_parent: None },
            ).push(Event::FinishNode));
        }
        lemma_root_shape(
            Event::StartNode { kind: SyntaxKind::Root, forward_parent: None },
            seg,
            p.evs(),
        );
        assert(s_exit.cur() == s_exit.kinds().len());
    }
    cm
}

/// Some token kind was wrapped by the recovery node.
pub open spec fn err_seg_some(old_evs: Seq<Event>, new_evs: Seq<Event>, msg: Seq<char>) -> bool {
    exists|k0: SyntaxKind| crate::parser::err_node_seg(old_evs, new_evs, msg, Some(k0))
}

} // verus!
