//! Aggregate guarantees of the planned surface.
//!
//! Each proof here states, over whole plans, a soundness guarantee that the
//! generated aggregate's safety rests on: dependencies are materialized
//! before their dependents, an exclusively borrowed field is reachable
//! through no accessor, a shared dependency is readable but never writable,
//! and a failed fallible construction hands back exactly the right heads
//! and releases exactly the intermediate fields.

use vstd::prelude::*;

use crate::access::{
    accessor_allowed, accessors_match, entry_count, heads_plan_matches, index_count,
    with_all_matches, Accessor, HeadsPlan, WithAllPlan,
};
use crate::construct::{
    head_recoveries_upto, init_matches, plan_matches, released_between, try_init_matches,
    try_plan_matches, ConstructorPlan, HeadRecovery, TryConstructorPlan,
};
use crate::field::{targets_declared_earlier, StructFieldInfo};

verus! {

/// Every dependency target is materialized before the field that depends
/// on it: materialization runs in declaration order, and every target of
/// field `i`'s one-shot function was declared — hence written and, where
/// borrowed, referenced — strictly earlier.
pub proof fn lemma_materialization_order(
    fields: Seq<StructFieldInfo>,
    plan: ConstructorPlan,
    do_chain_hack: bool,
)
    requires
        targets_declared_earlier(fields),
        plan_matches(fields, plan, do_chain_hack),
    ensures
        forall|i: int, k: int|
            #![trigger plan.inits@[i].invoke->Some_0@[k]]
            0 <= i < plan.inits@.len() && plan.inits@[i].invoke is Some && 0 <= k
                < plan.inits@[i].invoke->Some_0@.len() ==> plan.inits@[i].invoke->Some_0@[k] < i,
{
    assert forall|i: int, k: int|
        #![trigger plan.inits@[i].invoke->Some_0@[k]]
        0 <= i < plan.inits@.len() && plan.inits@[i].invoke is Some && 0 <= k
            < plan.inits@[i].invoke->Some_0@.len() implies plan.inits@[i].invoke->Some_0@[k]
        < i by {
        assert(init_matches(fields, i, plan.inits@[i]));
        let v = plan.inits@[i].invoke->Some_0;
        assert(v@[k] == fields[i].borrows@[k].index);
        assert(fields[i].borrows@[k].index < i);
    }
}

/// The same materialization guarantee for the fallible constructor.
pub proof fn lemma_try_materialization_order(
    fields: Seq<StructFieldInfo>,
    plan: TryConstructorPlan,
    do_chain_hack: bool,
)
    requires
        targets_declared_earlier(fields),
        try_plan_matches(fields, plan, do_chain_hack),
    ensures
        forall|i: int, k: int|
            #![trigger plan.inits@[i].invoke->Some_0@[k]]
            0 <= i < plan.inits@.len() && plan.inits@[i].invoke is Some && 0 <= k
                < plan.inits@[i].invoke->Some_0@.len() ==> plan.inits@[i].invoke->Some_0@[k] < i,
{
    assert forall|i: int, k: int|
        #![trigger plan.inits@[i].invoke->Some_0@[k]]
        0 <= i < plan.inits@.len() && plan.inits@[i].invoke is Some && 0 <= k
            < plan.inits@[i].invoke->Some_0@.len() implies plan.inits@[i].invoke->Some_0@[k]
        < i by {
        assert(try_init_matches(fields, i, plan.inits@[i]));
        let v = plan.inits@[i].invoke->Some_0;
        assert(v@[k] == fields[i].borrows@[k].index);
        assert(fields[i].borrows@[k].index < i);
    }
}

/// An exclusively borrowed field is reachable through nothing: the planned
/// surface holds no per-field accessor for it, no combined-read slot, and
/// no combined-write slot.
pub proof fn lemma_exclusive_no_accessors(
    fields: Seq<StructFieldInfo>,
    acc: Seq<Accessor>,
    with_all: WithAllPlan,
    j: int,
    do_chain_hack: bool,
)
    requires
        accessors_match(fields, acc, do_chain_hack),
        with_all_matches(fields, with_all, do_chain_hack),
        0 <= j < fields.len(),
        fields[j].field_type is BorrowedMut,
    ensures
        forall|k: int| 0 <= k < acc.len() ==> (#[trigger] acc[k]).field != j,
        entry_count(with_all.fields@, j) == 0,
        entry_count(with_all.mut_fields@, j) == 0,
{
    assert forall|k: int| 0 <= k < acc.len() implies (#[trigger] acc[k]).field != j by {
        assert(accessor_allowed(fields, acc[k]));
    }
}

/// A shared dependency is readable but never writable: its only accessor
/// is the scoped content read, it has exactly one combined-read slot, and
/// no write accessor or combined-write slot exposes it.
pub proof fn lemma_shared_read_only(
    fields: Seq<StructFieldInfo>,
    acc: Seq<Accessor>,
    with_all: WithAllPlan,
    j: int,
    do_chain_hack: bool,
)
    requires
        accessors_match(fields, acc, do_chain_hack),
        with_all_matches(fields, with_all, do_chain_hack),
        0 <= j < fields.len(),
        fields[j].field_type is Borrowed,
    ensures
        forall|k: int|
            0 <= k < acc.len() && (#[trigger] acc[k]).field == j ==> acc[k].kind is ReadContents,
        entry_count(with_all.fields@, j) == 1,
        entry_count(with_all.mut_fields@, j) == 0,
{
    assert forall|k: int|
        0 <= k < acc.len() && (#[trigger] acc[k]).field == j implies acc[k].kind
        is ReadContents by {
        assert(accessor_allowed(fields, acc[k]));
    }
}

/// Every recovery entry is a head field, taken from storage exactly if it
/// was declared before the failing field, and the entries come in
/// declaration order.
proof fn lemma_recoveries_shape(fields: Seq<StructFieldInfo>, i: int, m: int)
    requires
        0 <= m <= fields.len(),
        fields.len() <= usize::MAX,
    ensures
        forall|p: int|
            0 <= p < head_recoveries_upto(fields, i, m).len() ==> {
                let e = #[trigger] head_recoveries_upto(fields, i, m)[p];
                &&& e.field < m
                &&& fields[e.field as int].borrows@.len() == 0
                &&& e.from_storage == (e.field < i)
            },
        forall|p1: int, p2: int|
            0 <= p1 < p2 < head_recoveries_upto(fields, i, m).len() ==> (
            #[trigger] head_recoveries_upto(fields, i, m)[p1]).field < (
            #[trigger] head_recoveries_upto(fields, i, m)[p2]).field,
    decreases m,
{
    if m > 0 {
        lemma_recoveries_shape(fields, i, m - 1);
        let rest = head_recoveries_upto(fields, i, m - 1);
        let rec = head_recoveries_upto(fields, i, m);
        if fields[m - 1].borrows@.len() == 0 {
            let e = HeadRecovery { field: (m - 1) as usize, from_storage: m - 1 < i };
            assert(rec == rest.push(e));
            assert forall|p: int| 0 <= p < rec.len() implies {
                let entry = #[trigger] rec[p];
                &&& entry.field < m
                &&& fields[entry.field as int].borrows@.len() == 0
                &&& entry.from_storage == (entry.field < i)
            } by {
                if p < rest.len() {
                    assert(rec[p] == rest[p]);
                } else {
                    assert(rec[p] == e);
                }
            }
            assert forall|p1: int, p2: int|
                0 <= p1 < p2 < rec.len() implies (#[trigger] rec[p1]).field < (
            #[trigger] rec[p2]).field by {
                if p2 < rest.len() {
                    assert(rec[p1] == rest[p1] && rec[p2] == rest[p2]);
                } else {
                    assert(rec[p1] == rest[p1] && rec[p2] == e);
                    assert(rest[p1].field < m - 1 || rest[p1].field == m - 1);
                    assert(rest[p1].field < m - 1) by {
                        assert(rest[p1].field < m - 1 + 1);
                        if rest[p1].field == m - 1 {
                            assert(fields[rest[p1].field as int].borrows@.len() == 0);
                        }
                    }
                }
            }
        } else {
            assert(rec == rest);
        }
    }
}

/// Every head field has a recovery entry.
proof fn lemma_recoveries_complete(fields: Seq<StructFieldInfo>, i: int, m: int, j: int)
    requires
        0 <= j < m <= fields.len(),
        fields.len() <= usize::MAX,
        fields[j].borrows@.len() == 0,
    ensures
        exists|p: int|
            0 <= p < head_recoveries_upto(fields, i, m).len()
                && #[trigger] head_recoveries_upto(fields, i, m)[p] == (HeadRecovery {
                field: j as usize,
                from_storage: j < i,
            }),
    decreases m,
{
    let rec = head_recoveries_upto(fields, i, m);
    if j == m - 1 {
        assert(rec[rec.len() - 1] == (HeadRecovery { field: j as usize, from_storage: j < i }));
    } else {
        lemma_recoveries_complete(fields, i, m - 1, j);
        let rest = head_recoveries_upto(fields, i, m - 1);
        let p = choose|p: int|
            0 <= p < rest.len() && #[trigger] rest[p] == (HeadRecovery {
                field: j as usize,
                from_storage: j < i,
            });
        assert(rec[p] == rest[p]);
    }
}

/// Every released index is a dependent field materialized before the
/// failure, the list is strictly descending (reverse materialization
/// order, so nothing is released twice), and every such field is in it.
proof fn lemma_released_shape(fields: Seq<StructFieldInfo>, m: int, i: int)
    requires
        0 <= m <= i <= fields.len(),
        fields.len() <= usize::MAX,
    ensures
        forall|p: int|
            0 <= p < released_between(fields, m, i).len() ==> {
                let j = #[trigger] released_between(fields, m, i)[p];
                &&& m <= j < i
                &&& fields[j as int].borrows@.len() > 0
            },
        forall|p1: int, p2: int|
            0 <= p1 < p2 < released_between(fields, m, i).len() ==> (
            #[trigger] released_between(fields, m, i)[p1]) > (#[trigger] released_between(
                fields,
                m,
                i,
            )[p2]),
        forall|j: int|
            m <= j < i && (#[trigger] fields[j].borrows@).len() > 0 ==> released_between(
                fields,
                m,
                i,
            ).contains(j as usize),
    decreases i - m,
{
    if i > m {
        lemma_released_shape(fields, m, i - 1);
        let rest = released_between(fields, m, i - 1);
        let whole = released_between(fields, m, i);
        if fields[i - 1].borrows@.len() > 0 {
            assert(whole == seq![(i - 1) as usize] + rest);
            assert(whole[0] == (i - 1) as usize);
            assert forall|p1: int, p2: int|
                0 <= p1 < p2 < whole.len() implies (#[trigger] whole[p1]) > (
            #[trigger] whole[p2]) by {
                assert(whole[p2] == rest[p2 - 1]);
                if p1 > 0 {
                    assert(whole[p1] == rest[p1 - 1]);
                } else {
                    assert(whole[p1] == (i - 1) as usize);
                    assert(rest[p2 - 1] < i - 1 || rest[p2 - 1] == i - 1);
                    assert(m <= rest[p2 - 1] < i - 1);
                }
            }
            assert forall|p: int| 0 <= p < whole.len() implies {
                let j = #[trigger] whole[p];
                &&& m <= j < i
                &&& fields[j as int].borrows@.len() > 0
            } by {
                if p > 0 {
                    assert(whole[p] == rest[p - 1]);
                }
            }
            assert forall|j: int|
                m <= j < i && (#[trigger] fields[j].borrows@).len() > 0 implies whole.contains(
                j as usize,
            ) by {
                if j == i - 1 {
                    assert(whole[0] == j as usize);
                } else {
                    let p = choose|p: int| 0 <= p < rest.len() && rest[p] == j as usize;
                    assert(whole[p + 1] == j as usize);
                }
            }
        } else {
            assert(whole == rest);
            assert forall|j: int|
                m <= j < i && (#[trigger] fields[j].borrows@).len() > 0 implies whole.contains(
                j as usize,
            ) by {
                assert(j != i - 1);
            }
        }
    }
}

/// What a failure of the `k`-th materialization step hands back: the
/// recovered head set holds every head field exactly once — from the
/// partially built storage exactly those declared before the failing field,
/// from the still-owned parameters the rest — and the released list holds
/// exactly the dependent fields materialized before the failure, each once,
/// in reverse materialization order.
pub proof fn lemma_failure_recovery(
    fields: Seq<StructFieldInfo>,
    plan: TryConstructorPlan,
    k: int,
    do_chain_hack: bool,
)
    requires
        try_plan_matches(fields, plan, do_chain_hack),
        fields.len() <= usize::MAX,
        0 <= k < fields.len(),
        fields[k].borrows@.len() > 0,
    ensures
        plan.inits@[k].recovered matches Option::Some(r) && {
            &&& forall|p: int|
                0 <= p < r@.len() ==> {
                    let e = #[trigger] r@[p];
                    &&& e.field < fields.len()
                    &&& fields[e.field as int].borrows@.len() == 0
                    &&& e.from_storage == (e.field < k)
                }
            &&& forall|p1: int, p2: int|
                0 <= p1 < p2 < r@.len() ==> (#[trigger] r@[p1]).field < (#[trigger] r@[p2]).field
            &&& forall|j: int|
                0 <= j < fields.len() && (#[trigger] fields[j].borrows@).len() == 0 ==> exists|
                    p: int,
                |
                    0 <= p < r@.len() && #[trigger] r@[p] == (HeadRecovery {
                        field: j as usize,
                        from_storage: j < k,
                    })
        },
        plan.inits@[k].released matches Option::Some(rel) && {
            &&& forall|p: int|
                0 <= p < rel@.len() ==> {
                    let j = #[trigger] rel@[p];
                    &&& j < k
                    &&& fields[j as int].borrows@.len() > 0
                }
            &&& forall|p1: int, p2: int|
                0 <= p1 < p2 < rel@.len() ==> (#[trigger] rel@[p1]) > (#[trigger] rel@[p2])
            &&& forall|j: int|
                0 <= j < k && (#[trigger] fields[j].borrows@).len() > 0 ==> rel@.contains(
                    j as usize,
                )
        },
{
    assert(try_init_matches(fields, k, plan.inits@[k]));
    lemma_recoveries_shape(fields, k, fields.len() as int);
    assert forall|j: int|
        0 <= j < fields.len() && (#[trigger] fields[j].borrows@).len() == 0 implies exists|p: int|
        0 <= p < plan.inits@[k].recovered->Some_0@.len() && #[trigger] plan.inits@[
        k].recovered->Some_0@[p] == (HeadRecovery { field: j as usize, from_storage: j < k }) by {
        lemma_recoveries_complete(fields, k, fields.len() as int, j);
    }
    lemma_released_shape(fields, 0, k);
}


/// Building through a builder is the same as calling the constructor
/// directly: the builder struct holds exactly the constructor's parameters,
/// under the same names, in the same order, and its terminal operation
/// forwards them unchanged — so identical inputs produce identical
/// aggregates along either path.
pub proof fn lemma_builder_forwards(
    fields: Seq<StructFieldInfo>,
    plan: ConstructorPlan,
    do_chain_hack: bool,
)
    requires
        plan_matches(fields, plan, do_chain_hack),
    ensures
        plan.builder_fields@.len() == plan.params@.len(),
        forall|k: int|
            0 <= k < plan.params@.len() ==> (#[trigger] plan.builder_fields@[k])@
                == plan.params@[k].name@,
{
}

/// The same forwarding guarantee for the fallible builder.
pub proof fn lemma_try_builder_forwards(
    fields: Seq<StructFieldInfo>,
    plan: TryConstructorPlan,
    do_chain_hack: bool,
)
    requires
        try_plan_matches(fields, plan, do_chain_hack),
    ensures
        plan.builder_fields@.len() == plan.params@.len(),
        forall|k: int|
            0 <= k < plan.params@.len() ==> (#[trigger] plan.builder_fields@[k])@
                == plan.params@[k].name@,
{
}

/// A positive count of an index means the list contains it, and the other
/// way round.
proof fn lemma_index_count_contains(s: Seq<usize>, j: int)
    ensures
        index_count(s, j) > 0 <==> s.contains(j as usize) && 0 <= j <= usize::MAX,
    decreases s.len(),
{
    if s.len() > 0 {
        lemma_index_count_contains(s.drop_last(), j);
        if s.last() == j {
            assert(s[s.len() - 1] == j as usize);
        }
        if index_count(s, j) == 0 && s.contains(j as usize) && 0 <= j <= usize::MAX {
            let p = choose|p: int| 0 <= p < s.len() && s[p] == j as usize;
            if p < s.len() - 1 {
                assert(s.drop_last()[p] == j as usize);
            }
        }
    }
}

/// Head extraction keeps exactly the head fields: a field's index is in the
/// kept list if and only if the field declares no dependency — and the list
/// is strictly ordered, so each head is returned exactly once.
pub proof fn lemma_heads_exact(fields: Seq<StructFieldInfo>, plan: HeadsPlan, j: int)
    requires
        heads_plan_matches(fields, plan),
        fields.len() <= usize::MAX,
        0 <= j < fields.len(),
    ensures
        plan.heads@.contains(j as usize) <==> fields[j].borrows@.len() == 0,
{
    lemma_index_count_contains(plan.heads@, j);
}

} // verus!
