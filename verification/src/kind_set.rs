use vstd::prelude::*;
use crate::syntax_kind::{kind_index, lemma_kind_index_bijective, lemma_kind_index_injective, SyntaxKind};

verus! {

/// An immutable bit-vector over `SyntaxKind`, used for first sets and
/// recovery sets of grammar productions.  Every kind index fits in the
/// 128-bit word (`kind_index` stays below `KIND_COUNT`).
#[derive(Debug, Clone, Copy)]
pub struct KindSet(pub u128);

/// The bit that stands for `kind`.
pub open spec fn mask_spec(kind: SyntaxKind) -> u128 {
    (1u128 << kind_index(kind)) as u128
}

pub fn mask(kind: SyntaxKind) -> (r: u128)
    ensures
        r == mask_spec(kind),
{
    let idx: u16 = crate::language::RueLanguage::kind_to_raw(kind);
    1u128 << idx
}

/// A set bit is never zero, and two kinds share a bit only if they are equal.
proof fn lemma_mask_nonzero(kind: SyntaxKind)
    ensures
        mask_spec(kind) != 0,
{
    lemma_kind_index_bijective(kind);
    let i = kind_index(kind) as u128;
    assert((1u128 << i) != 0) by (bit_vector)
        requires
            i < 128,
    ;
}

proof fn lemma_mask_overlap(a: SyntaxKind, b: SyntaxKind)
    ensures
        (mask_spec(a) & mask_spec(b) != 0) <==> a == b,
{
    lemma_kind_index_bijective(a);
    lemma_kind_index_bijective(b);
    let i = kind_index(a) as u128;
    let j = kind_index(b) as u128;
    assert(((1u128 << i) & (1u128 << j) != 0) <==> i == j) by (bit_vector)
        requires
            i < 128,
            j < 128,
    ;
    if i == j {
        lemma_kind_index_injective(a, b);
    }
}

impl KindSet {
    /// Whether `kind`'s bit is set in this word.
    pub open spec fn has(self, kind: SyntaxKind) -> bool {
        self.0 & mask_spec(kind) != 0
    }

    /// The set holding exactly the listed kinds.
    pub fn new(kinds: &[SyntaxKind]) -> (r: KindSet)
        ensures
            forall|k: SyntaxKind| r.has(k) <==> kinds@.contains(k),
    {
        let mut res: u128 = 0;
        let mut i: usize = 0;
        proof {
            assert forall|k: SyntaxKind| (0u128 & mask_spec(k)) == 0 by {
                let mk = mask_spec(k);
                assert(0u128 & mk == 0) by (bit_vector);
            }
        }
        while i < kinds.len()
            invariant
                i <= kinds@.len(),
                forall|k: SyntaxKind|
                    (#[trigger] (res & mask_spec(k)) != 0) <==> kinds@.subrange(0, i as int).contains(k),
            decreases kinds@.len() - i,
        {
            let m = mask(kinds[i]);
            let ghost old_res = res;
            res = res | m;
            proof {
                let ki = kinds@[i as int];
                assert forall|k: SyntaxKind| ((res & mask_spec(k)) != 0) implies kinds@.subrange(
                    0,
                    i + 1,
                ).contains(k) by {
                    let mk = mask_spec(k);
                    let mi = mask_spec(ki);
                    assert((old_res | mi) & mk != 0 ==> (old_res & mk != 0) || (mi & mk != 0))
                        by (bit_vector);
                    if old_res & mk != 0 {
                        let j = choose|j: int|
                            0 <= j < i && kinds@.subrange(0, i as int)[j] == k;
                        assert(kinds@.subrange(0, i + 1)[j] == k);
                    } else {
                        lemma_mask_overlap(ki, k);
                        assert(kinds@.subrange(0, i + 1)[i as int] == k);
                    }
                }
                assert forall|k: SyntaxKind| kinds@.subrange(0, i + 1).contains(k) implies ((res
                    & mask_spec(k)) != 0) by {
                    let mk = mask_spec(k);
                    let mi = mask_spec(ki);
                    let j = choose|j: int|
                        0 <= j < i + 1 && #[trigger] kinds@.subrange(0, i + 1)[j] == k;
                    assert((old_res & mk != 0) || (mi & mk != 0) ==> (old_res | mi) & mk != 0)
                        by (bit_vector);
                    if j < i {
                        assert(kinds@.subrange(0, i as int)[j] == k);
                    } else {
                        assert(k == ki);
                        lemma_mask_overlap(ki, ki);
                        lemma_mask_nonzero(ki);
                    }
                }
            }
            i += 1;
        }
        proof {
            assert(kinds@.subrange(0, kinds@.len() as int) == kinds@);
        }
        KindSet(res)
    }

    /// The empty set.
    pub fn empty() -> (r: KindSet)
        ensures
            forall|k: SyntaxKind| !r.has(k),
    {
        proof {
            assert forall|k: SyntaxKind| (0u128 & mask_spec(k)) == 0 by {
                let mk = mask_spec(k);
                assert(0u128 & mk == 0) by (bit_vector);
            }
        }
        KindSet(0)
    }

    /// The union of the two sets.
    pub fn union(self, other: KindSet) -> (r: KindSet)
        ensures
            forall|k: SyntaxKind| #[trigger] r.has(k) <==> self.has(k) || other.has(k),
    {
        proof {
            assert forall|k: SyntaxKind|
                ((self.0 | other.0) & mask_spec(k) != 0) <==> (self.0 & mask_spec(k) != 0) || (
                other.0 & mask_spec(k) != 0) by {
                let a = self.0;
                let b = other.0;
                let mk = mask_spec(k);
                assert(((a | b) & mk != 0) <==> (a & mk != 0) || (b & mk != 0)) by (bit_vector);
            }
        }
        KindSet(self.0 | other.0)
    }

    /// Membership test.
    pub fn contains(&self, kind: SyntaxKind) -> (r: bool)
        ensures
            r == self.has(kind),
    {
        self.0 & mask(kind) != 0
    }
}

} // verus!
