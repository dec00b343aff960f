//! The mathematical set algebra behind the commands: the intersection of a
//! base set with a list of operand sets, and the laws it obeys.

use vstd::prelude::*;

use crate::domain::Primitive;

verus! {

/// True when `p` lies in every one of `operands`.
pub open spec fn in_all(operands: Seq<Set<Primitive>>, p: Primitive) -> bool {
    forall|i: int| 0 <= i < operands.len() ==> #[trigger] operands[i].contains(p)
}

/// The elements of `base` present in every operand set:
/// base ∩ operands[0] ∩ operands[1] ∩ …
pub open spec fn intersect_all(base: Set<Primitive>, operands: Seq<Set<Primitive>>) -> Set<
    Primitive,
> {
    Set::new(|p: Primitive| base.contains(p) && in_all(operands, p))
}

/// With a single operand, `intersect_all` is the ordinary binary
/// intersection.
pub proof fn lemma_intersect_one(a: Set<Primitive>, b: Set<Primitive>)
    ensures
        intersect_all(a, seq![b]) == a.intersect(b),
{
    let s = seq![b];
    assert(s.len() == 1 && s[0] == b);
    assert forall|p: Primitive| in_all(s, p) <==> b.contains(p) by {
        assert(in_all(s, p) ==> s[0].contains(p));
        if b.contains(p) {
            assert forall|i: int| 0 <= i < s.len() implies #[trigger] s[i].contains(p) by {
                assert(s[i] == b);
            }
        }
    }
    assert(intersect_all(a, s) =~= a.intersect(b));
}

/// Intersecting with the same operands twice changes nothing beyond the
/// first time: re-intersection is idempotent.
pub proof fn lemma_intersect_idempotent(base: Set<Primitive>, operands: Seq<Set<Primitive>>)
    ensures
        intersect_all(intersect_all(base, operands), operands) == intersect_all(base, operands),
{
    assert(intersect_all(intersect_all(base, operands), operands) =~= intersect_all(
        base,
        operands,
    ));
}

/// The intersection of two sets sharing no element is empty.
pub proof fn lemma_intersect_disjoint(a: Set<Primitive>, b: Set<Primitive>)
    requires
        a.disjoint(b),
    ensures
        intersect_all(a, seq![b]) == Set::<Primitive>::empty(),
{
    lemma_intersect_one(a, b);
    assert(a.intersect(b) =~= Set::<Primitive>::empty());
}

/// Intersecting a set with itself gives the set back, so in particular its
/// cardinality is unchanged.
pub proof fn lemma_intersect_self(a: Set<Primitive>)
    ensures
        intersect_all(a, seq![a]) == a,
        intersect_all(a, seq![a]).len() == a.len(),
{
    assert(intersect_all(a, seq![a]) =~= a);
}

} // verus!
