use vstd::prelude::*;
use crate::syntax_kind::SyntaxKind;

verus! {

/// One structural instruction of the flat, append-only event log the parser
/// emits instead of building a tree directly.
///
/// `StartNode` opens a node; its kind is a `Tombstone` placeholder until a
/// marker resolves it, and `forward_parent` is an offset to a later start
/// event that linearization must open first (the deferred re-parenting
/// device behind `precede` and `extend_to`).  `AddToken` attaches the next
/// `token_count` significant tokens as one leaf.  `Error` records a
/// diagnostic without touching the tree.  `FinishNode` closes the innermost
/// open node.
#[derive(Debug, Clone, PartialEq, Eq)]
pub enum Event {
    StartNode { kind: SyntaxKind, forward_parent: Option<usize> },
    AddToken { kind: SyntaxKind, token_count: usize },
    Error(String),
    FinishNode,
}

impl Event {
    /// The placeholder a fresh marker leaves in the log.
    pub fn tombstone() -> (r: Event)
        ensures
            r == tombstone_spec(),
    {
        Event::StartNode { kind: SyntaxKind::Tombstone, forward_parent: None }
    }
}

pub open spec fn tombstone_spec() -> Event {
    Event::StartNode { kind: SyntaxKind::Tombstone, forward_parent: None }
}

/// A start event whose node counts: its kind has been resolved.
pub open spec fn is_live_start(e: Event) -> bool {
    match e {
        Event::StartNode { kind, .. } => kind != SyntaxKind::Tombstone,
        _ => false,
    }
}

pub open spec fn is_start(e: Event) -> bool {
    e is StartNode
}

/// Number of kind-resolved start events among the first `k`.
pub open spec fn live_count(evs: Seq<Event>, k: int) -> int
    decreases k,
{
    if k <= 0 {
        0
    } else {
        live_count(evs, k - 1) + if is_live_start(evs[k - 1]) {
            1int
        } else {
            0int
        }
    }
}

/// Number of finish events among the first `k`.
pub open spec fn finish_count(evs: Seq<Event>, k: int) -> int
    decreases k,
{
    if k <= 0 {
        0
    } else {
        finish_count(evs, k - 1) + if evs[k - 1] is FinishNode {
            1int
        } else {
            0int
        }
    }
}

/// Total token count of the token events among the first `k`.
pub open spec fn consumed_count(evs: Seq<Event>, k: int) -> int
    decreases k,
{
    if k <= 0 {
        0
    } else {
        consumed_count(evs, k - 1) + match evs[k - 1] {
            Event::AddToken { token_count, .. } => token_count as int,
            _ => 0int,
        }
    }
}

/// Two logs that agree on a prefix have the same counts over it.
pub proof fn lemma_counts_congruence(a: Seq<Event>, b: Seq<Event>, k: int)
    requires
        forall|j: int| 0 <= j < k ==> a[j] == b[j],
    ensures
        live_count(a, k) == live_count(b, k),
        finish_count(a, k) == finish_count(b, k),
        consumed_count(a, k) == consumed_count(b, k),
    decreases k,
{
    if k > 0 {
        lemma_counts_congruence(a, b, k - 1);
    }
}

/// Replacing entry `i` shifts every count past `i` by the difference the two
/// entries make.
pub proof fn lemma_counts_update(evs: Seq<Event>, i: int, e: Event, k: int)
    requires
        0 <= i < evs.len(),
    ensures
        k <= i ==> live_count(evs.update(i, e), k) == live_count(evs, k) && finish_count(
            evs.update(i, e),
            k,
        ) == finish_count(evs, k) && consumed_count(evs.update(i, e), k) == consumed_count(evs, k),
        i < k <= evs.len() ==> {
            &&& live_count(evs.update(i, e), k) == live_count(evs, k) + (if is_live_start(e) {
                1int
            } else {
                0int
            }) - (if is_live_start(evs[i]) {
                1int
            } else {
                0int
            })
            &&& finish_count(evs.update(i, e), k) == finish_count(evs, k) + (if e is FinishNode {
                1int
            } else {
                0int
            }) - (if evs[i] is FinishNode {
                1int
            } else {
                0int
            })
            &&& consumed_count(evs.update(i, e), k) == consumed_count(evs, k) + (match e {
                Event::AddToken { token_count, .. } => token_count as int,
                _ => 0int,
            }) - (match evs[i] {
                Event::AddToken { token_count, .. } => token_count as int,
                _ => 0int,
            })
        },
    decreases k,
{
    if k > 0 {
        lemma_counts_update(evs, i, e, k - 1);
    }
}

/// Counts over a concatenation split at the boundary.
pub proof fn lemma_counts_concat(a: Seq<Event>, b: Seq<Event>, k: int)
    requires
        0 <= k <= b.len(),
    ensures
        live_count(a + b, a.len() + k) == live_count(a, a.len() as int) + live_count(b, k),
        finish_count(a + b, a.len() + k) == finish_count(a, a.len() as int) + finish_count(b, k),
        consumed_count(a + b, a.len() + k) == consumed_count(a, a.len() as int) + consumed_count(
            b,
            k,
        ),
    decreases k,
{
    if k == 0 {
        lemma_counts_congruence(a + b, a, a.len() as int);
    } else {
        lemma_counts_concat(a, b, k - 1);
        assert((a + b)[a.len() + k - 1] == b[k - 1]);
    }
}

/// The forward-parent link of entry `i` is well formed: a positive offset to
/// a later start event inside the log.
pub open spec fn fp_entry_ok(evs: Seq<Event>, i: int) -> bool {
    match evs[i] {
        Event::StartNode { forward_parent: Some(d), .. } => 1 <= d && i + d < evs.len() && is_start(
            evs[i + d],
        ),
        _ => true,
    }
}

pub open spec fn fp_ok(evs: Seq<Event>) -> bool {
    forall|i: int| 0 <= i < evs.len() ==> #[trigger] fp_entry_ok(evs, i)
}

/// The token event at entry `i` is well formed relative to the parser
/// input: it consumes tokens that exist, and a multi-token (composite)
/// event only covers tokens that are pairwise joint.
pub open spec fn tok_entry_ok(
    evs: Seq<Event>,
    i: int,
    kinds: Seq<SyntaxKind>,
    joint: Seq<bool>,
) -> bool {
    match evs[i] {
        Event::AddToken { token_count, .. } => {
            let s = consumed_count(evs, i);
            &&& token_count >= 1
            &&& s + token_count <= kinds.len()
            &&& kinds.len() == joint.len()
            &&& forall|m: int| 0 <= m < token_count - 1 ==> #[trigger] joint[s + m]
        },
        _ => true,
    }
}

pub open spec fn tok_ok(evs: Seq<Event>, kinds: Seq<SyntaxKind>, joint: Seq<bool>) -> bool {
    forall|i: int| 0 <= i < evs.len() ==> #[trigger] tok_entry_ok(evs, i, kinds, joint)
}

/// In every prefix, finish events never outnumber kind-resolved starts:
/// each finish closes a node that was opened earlier.
pub open spec fn prefix_le(evs: Seq<Event>) -> bool {
    forall|k: int| 0 <= k <= evs.len() ==> #[trigger] finish_count(evs, k) <= live_count(evs, k)
}

/// A balanced segment: within it every kind-resolved start is matched by
/// exactly one later finish.  This is the shape every grammar production
/// appends to the log: each marker it opens is completed or abandoned
/// before it returns.
pub open spec fn seg_balanced(seg: Seq<Event>) -> bool {
    &&& live_count(seg, seg.len() as int) == finish_count(seg, seg.len() as int)
    &&& forall|k: int|
        0 <= k <= seg.len() ==> #[trigger] finish_count(seg, k) <= live_count(seg, k)
}

/// Concatenating balanced segments yields a balanced segment.
pub proof fn lemma_seg_balanced_concat(a: Seq<Event>, b: Seq<Event>)
    requires
        seg_balanced(a),
        seg_balanced(b),
    ensures
        seg_balanced(a + b),
{
    lemma_counts_concat(a, b, b.len() as int);
    assert forall|k: int| 0 <= k <= (a + b).len() implies #[trigger] finish_count(a + b, k)
        <= live_count(a + b, k) by {
        if k <= a.len() {
            lemma_counts_congruence(a + b, a, k);
        } else {
            lemma_counts_concat(a, b, k - a.len());
        }
    }
}

} // verus!
