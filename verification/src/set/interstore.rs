//! The intersection command: read the base set and every operand set,
//! intersect them, store the result under the destination key, and return
//! its cardinality. All reads are validated before the single write, so a
//! failing command leaves the store exactly as it was.

use vstd::prelude::*;

use crate::domain::{Data, DataModel, Primitive, PrimitiveSet};
use crate::errors::{ApplicationError, ErrorModel};
use crate::set::algebra::{in_all, intersect_all};
use crate::set::utilities::{get_set, lookup_outcome, set_at};
use crate::store::Store;

verus! {

/// The operand keys as character sequences.
pub open spec fn operand_views(keys: Seq<String>) -> Seq<Seq<char>> {
    keys.map_values(|k: String| k@)
}

/// The sets stored under the operand keys.
pub open spec fn operand_sets(m: Map<Seq<char>, DataModel>, keys: Seq<Seq<char>>) -> Seq<
    Set<Primitive>,
> {
    keys.map_values(|k: Seq<char>| set_at(m, k))
}

/// The first failure among the operand keys, resolved left to right.
pub open spec fn first_operand_problem(m: Map<Seq<char>, DataModel>, keys: Seq<Seq<char>>) -> Option<
    ErrorModel,
>
    decreases keys.len(),
{
    if keys.len() == 0 {
        None
    } else if lookup_outcome(m, keys[0]) is Some {
        lookup_outcome(m, keys[0])
    } else {
        first_operand_problem(m, keys.drop_first())
    }
}

/// Why the whole command fails, if it does: first the base key, then the
/// degenerate empty operand list, then the operand keys in order.
pub open spec fn command_problem(
    m: Map<Seq<char>, DataModel>,
    base: Seq<char>,
    keys: Seq<Seq<char>>,
) -> Option<ErrorModel> {
    if lookup_outcome(m, base) is Some {
        lookup_outcome(m, base)
    } else if keys.len() == 0 {
        Some(ErrorModel::NoOperands)
    } else {
        first_operand_problem(m, keys)
    }
}

/// What a successful command stores and counts: the intersection of the
/// base set with every operand set.
pub open spec fn command_result(
    m: Map<Seq<char>, DataModel>,
    base: Seq<char>,
    keys: Seq<Seq<char>>,
) -> Set<Primitive> {
    intersect_all(set_at(m, base), operand_sets(m, keys))
}

/// When a command fails, it fails with exactly `command_problem`; on every
/// input on which `command_problem` is `None` it succeeds. It succeeds by
/// writing `command_result` under the destination key — the one mutation —
/// and returning that set's cardinality. On failure the store is untouched.
pub fn command(
    store: &mut Store,
    destination: &str,
    base_key: &str,
    keys: &[String],
) -> (r: Result<usize, ApplicationError>)
    requires
        old(store).wf(),
    ensures
        final(store).wf(),
        (match r {
            Ok(n) => {
                &&& command_problem(old(store)@, base_key@, operand_views(keys@)) is None
                &&& final(store)@ == old(store)@.insert(
                    destination@,
                    DataModel::SetValue(
                        command_result(old(store)@, base_key@, operand_views(keys@)),
                    ),
                )
                &&& final(store)@[destination@] == DataModel::SetValue(
                    command_result(old(store)@, base_key@, operand_views(keys@)),
                )
                &&& n == command_result(old(store)@, base_key@, operand_views(keys@)).len()
            },
            Err(e) => {
                &&& command_problem(old(store)@, base_key@, operand_views(keys@)) == Some(e@)
                &&& *final(store) == *old(store)
            },
        }),
{
    let ghost m = store@;
    let ghost kviews = operand_views(keys@);
    let base = match get_set(store, base_key) {
        Ok(s) => s,
        Err(e) => {
            return Err(e);
        },
    };
    if keys.len() == 0 {
        return Err(ApplicationError::NoOperands);
    }
    let mut operands: Vec<PrimitiveSet> = Vec::new();
    let mut i: usize = 0;
    while i < keys.len()
        invariant
            store.wf(),
            i <= keys@.len(),
            kviews == operand_views(keys@),
            kviews.len() == keys@.len(),
            m == store@,
            lookup_outcome(m, base_key@) is None,
            keys@.len() > 0,
            operands@.len() == i,
            forall|j: int| 0 <= j < i ==> lookup_outcome(m, kviews[j]) is None,
            forall|j: int|
                0 <= j < i ==> (#[trigger] operands@[j]).wf() && operands@[j]@ == set_at(
                    m,
                    kviews[j],
                ),
        decreases keys@.len() - i,
    {
        proof {
            assert(kviews[i as int] == keys@[i as int]@);
        }
        match get_set(store, keys[i].as_str()) {
            Ok(s) => {
                operands.push(s);
            },
            Err(e) => {
                proof {
                    assert(lookup_outcome(m, kviews[i as int]) == Some(e@));
                    lemma_first_operand_problem_skip(m, kviews, i as int);
                    let rest = kviews.skip(i as int);
                    assert(rest.len() == kviews.len() - i);
                    assert(rest[0] == kviews[i as int]);
                    assert(first_operand_problem(m, rest) == Some(e@));
                    assert(command_problem(m, base_key@, kviews) == Some(e@));
                }
                return Err(e);
            },
        }
        i += 1;
    }
    proof {
        lemma_first_operand_problem_skip(m, kviews, kviews.len() as int);
        assert(kviews.skip(kviews.len() as int) =~= Seq::<Seq<char>>::empty());
        assert(first_operand_problem(m, kviews) is None);
        assert(command_problem(m, base_key@, kviews) is None);
    }
    let ghost opsets = operand_sets(m, kviews);
    proof {
        assert forall|j: int| 0 <= j < kviews.len() implies #[trigger] opsets[j] == set_at(
            m,
            kviews[j],
        ) by {}
    }
    let base_elems = base.elements();
    let mut result_elems: Vec<Primitive> = Vec::new();
    let mut bi: usize = 0;
    while bi < base_elems.len()
        invariant
            bi <= base_elems@.len(),
            base_elems@.no_duplicates(),
            base_elems@.to_set() == base@,
            operands@.len() == opsets.len(),
            forall|j: int|
                0 <= j < operands@.len() ==> (#[trigger] operands@[j]).wf() && operands@[j]@
                    == opsets[j],
            result_elems@.no_duplicates(),
            forall|q: Primitive| #![trigger result_elems@.contains(q)]
                result_elems@.contains(q) <==> (base_elems@.take(bi as int).contains(q) && in_all(
                    opsets,
                    q,
                )),
        decreases base_elems@.len() - bi,
    {
        let p = base_elems[bi];
        let mut everywhere = true;
        let mut oi: usize = 0;
        while oi < operands.len()
            invariant
                oi <= operands@.len(),
                operands@.len() == opsets.len(),
                forall|j: int|
                    0 <= j < operands@.len() ==> (#[trigger] operands@[j]).wf() && operands@[j]@
                        == opsets[j],
                everywhere == (forall|j: int| 0 <= j < oi ==> #[trigger] opsets[j].contains(p)),
            decreases operands@.len() - oi,
        {
            if !operands[oi].contains(p) {
                everywhere = false;
            }
            oi += 1;
        }
        proof {
            assert(everywhere == in_all(opsets, p));
        }
        let ghost pre = result_elems@;
        if everywhere {
            proof {
                assert(!base_elems@.take(bi as int).contains(p)) by {
                    if base_elems@.take(bi as int).contains(p) {
                        let w = choose|w: int|
                            0 <= w < base_elems@.take(bi as int).len() && base_elems@.take(
                                bi as int,
                            )[w] == p;
                        assert(base_elems@[w] == base_elems@[bi as int]);
                    }
                }
                assert(!result_elems@.contains(p));
            }
            result_elems.push(p);
            proof {
                lemma_push_contains(pre, p);
                lemma_push_no_duplicates(pre, p);
            }
        }
        proof {
            let taken = base_elems@.take(bi as int);
            let taken1 = base_elems@.take(bi + 1);
            assert(taken1 =~= taken.push(p));
            lemma_push_contains(taken, p);
            assert forall|q: Primitive|
                result_elems@.contains(q) <==> (taken1.contains(q) && in_all(opsets, q)) by {
                if everywhere {
                    assert(result_elems@.contains(q) <==> (pre.contains(q) || q == p));
                    assert(pre.contains(q) <==> (taken.contains(q) && in_all(opsets, q)));
                } else {
                    assert(result_elems@ == pre);
                    assert(pre.contains(q) <==> (taken.contains(q) && in_all(opsets, q)));
                    if q == p {
                        assert(!in_all(opsets, q));
                    }
                }
            }
        }
        bi += 1;
    }
    proof {
        assert(base_elems@.take(base_elems@.len() as int) =~= base_elems@);
        assert(base@ == set_at(m, base_key@));
        assert forall|q: Primitive|
            result_elems@.to_set().contains(q) <==> command_result(m, base_key@, kviews).contains(
                q,
            ) by {
            assert(result_elems@.to_set().contains(q) == result_elems@.contains(q));
            assert(base_elems@.to_set().contains(q) == base_elems@.contains(q));
        }
        assert(result_elems@.to_set() =~= command_result(m, base_key@, kviews));
        result_elems@.unique_seq_to_set();
    }
    let n = result_elems.len();
    let owned_destination: String = destination.to_string();
    proof {
        broadcast use vstd::string::to_string_from_display_ensures_for_str;

        assert(owned_destination@ == destination@);
    }
    store.insert(owned_destination, Data::SetValue(PrimitiveSet::from_elements(result_elems)));
    Ok(n)
}

/// With a base key that resolves to a set, a command given no operand keys
/// always fails with `NoOperands`; paired with `command`'s contract, such a
/// call also leaves the store untouched.
pub proof fn lemma_no_operands(m: Map<Seq<char>, DataModel>, base: Seq<char>)
    requires
        lookup_outcome(m, base) is None,
    ensures
        command_problem(m, base, Seq::<Seq<char>>::empty()) == Some(ErrorModel::NoOperands),
{
}

/// The operand keys resolve cleanly as a list exactly when each one
/// resolves cleanly on its own.
pub proof fn lemma_first_operand_problem_none_iff(m: Map<Seq<char>, DataModel>, keys: Seq<Seq<char>>)
    ensures
        first_operand_problem(m, keys) is None <==> (forall|i: int|
            0 <= i < keys.len() ==> lookup_outcome(m, #[trigger] keys[i]) is None),
    decreases keys.len(),
{
    if keys.len() > 0 {
        lemma_first_operand_problem_none_iff(m, keys.drop_first());
        assert forall|i: int|
            0 <= i < keys.len() && (forall|j: int|
                0 <= j < keys.drop_first().len() ==> lookup_outcome(
                    m,
                    #[trigger] keys.drop_first()[j],
                ) is None) && lookup_outcome(m, keys[0]) is None implies lookup_outcome(
            m,
            #[trigger] keys[i],
        ) is None by {
            if i > 0 {
                assert(keys.drop_first()[i - 1] == keys[i]);
            }
        }
        if forall|i: int| 0 <= i < keys.len() ==> lookup_outcome(m, #[trigger] keys[i]) is None {
            assert forall|j: int|
                0 <= j < keys.drop_first().len() implies lookup_outcome(
                m,
                #[trigger] keys.drop_first()[j],
            ) is None by {
                assert(keys.drop_first()[j] == keys[j + 1]);
            }
        }
    }
}

/// Re-intersection is idempotent at the store too: after a successful
/// command, running it again with the stored result as the base and the
/// same operand keys succeeds and computes the same set — even when the
/// destination overwrote the base or an operand key.
pub proof fn lemma_recommand_idempotent(
    m: Map<Seq<char>, DataModel>,
    base: Seq<char>,
    keys: Seq<Seq<char>>,
    dest: Seq<char>,
)
    requires
        command_problem(m, base, keys) is None,
    ensures
        ({
            let result = command_result(m, base, keys);
            let stored = m.insert(dest, DataModel::SetValue(result));
            &&& command_problem(stored, dest, keys) is None
            &&& command_result(stored, dest, keys) == result
        }),
{
    let result = command_result(m, base, keys);
    let stored = m.insert(dest, DataModel::SetValue(result));
    assert(keys.len() > 0);
    assert(lookup_outcome(stored, dest) is None);
    lemma_first_operand_problem_none_iff(m, keys);
    assert forall|i: int| 0 <= i < keys.len() implies lookup_outcome(
        stored,
        #[trigger] keys[i],
    ) is None by {
        if keys[i] != dest {
            assert(stored[keys[i]] == m[keys[i]]);
        }
    }
    lemma_first_operand_problem_none_iff(stored, keys);
    let ops = operand_sets(m, keys);
    let ops2 = operand_sets(stored, keys);
    assert forall|p: Primitive| command_result(stored, dest, keys).contains(p) <==> result.contains(
        p,
    ) by {
        assert(set_at(stored, dest) == result);
        if result.contains(p) {
            assert(in_all(ops, p));
            assert forall|i: int| 0 <= i < ops2.len() implies #[trigger] ops2[i].contains(p) by {
                assert(ops2[i] == set_at(stored, keys[i]));
                if keys[i] == dest {
                    assert(ops2[i] == result);
                } else {
                    assert(ops2[i] == set_at(m, keys[i]));
                    assert(ops[i] == set_at(m, keys[i]));
                    assert(ops[i].contains(p));
                }
            }
        }
    }
    assert(command_result(stored, dest, keys) =~= result);
}

/// Dropping operand keys that resolve cleanly does not change the first
/// failure among the rest.
proof fn lemma_first_operand_problem_skip(m: Map<Seq<char>, DataModel>, keys: Seq<Seq<char>>, i: int)
    requires
        0 <= i <= keys.len(),
        forall|j: int| 0 <= j < i ==> lookup_outcome(m, keys[j]) is None,
    ensures
        first_operand_problem(m, keys) == first_operand_problem(m, keys.skip(i)),
    decreases i,
{
    if i > 0 {
        assert(lookup_outcome(m, keys[0]) is None);
        assert(first_operand_problem(m, keys) == first_operand_problem(m, keys.drop_first()));
        assert(keys.drop_first() =~= keys.skip(1));
        lemma_first_operand_problem_skip(m, keys.skip(1), i - 1);
        assert(keys.skip(1).skip(i - 1) =~= keys.skip(i));
    } else {
        assert(keys.skip(0) =~= keys);
    }
}

/// Appending an element makes a sequence contain exactly one thing more.
proof fn lemma_push_contains(s: Seq<Primitive>, p: Primitive)
    ensures
        forall|q: Primitive| s.push(p).contains(q) <==> (s.contains(q) || q == p),
{
    assert forall|q: Primitive| s.push(p).contains(q) implies (s.contains(q) || q == p) by {
        let w = choose|w: int| 0 <= w < s.push(p).len() && s.push(p)[w] == q;
        if w < s.len() {
            assert(s[w] == q);
        }
    }
    assert forall|q: Primitive| s.contains(q) implies s.push(p).contains(q) by {
        let w = choose|w: int| 0 <= w < s.len() && s[w] == q;
        assert(s.push(p)[w] == q);
    }
    assert(s.push(p)[s.len() as int] == p);
}

/// Appending an element a sequence does not hold keeps it duplicate-free.
proof fn lemma_push_no_duplicates(s: Seq<Primitive>, p: Primitive)
    requires
        s.no_duplicates(),
        !s.contains(p),
    ensures
        s.push(p).no_duplicates(),
{
    let t = s.push(p);
    assert forall|a: int, b: int|
        0 <= a < t.len() && 0 <= b < t.len() && a != b implies t[a] != t[b] by {
        if a < s.len() && b < s.len() {
            assert(t[a] == s[a] && t[b] == s[b]);
        } else if a < s.len() {
            assert(t[a] == s[a]);
            if s[a] == p {
                assert(s.contains(p));
            }
        } else {
            assert(t[b] == s[b]);
            if s[b] == p {
                assert(s.contains(p));
            }
        }
    }
}

} // verus!
