//! Field descriptors and the borrow-role model.
//!
//! Each declared field carries its name, its declared type, the list of
//! dependency edges it declares on earlier fields, and the role computed from
//! how *other* fields borrow it.  The specification functions here say what a
//! consistent set of descriptors looks like: every edge points at an earlier
//! field, and every role agrees with the set of edges targeting the field.

use vstd::prelude::*;
use vstd::string::StringExecFns;

use crate::token::TokenNode;

verus! {

/// How a field is borrowed by the other fields of the struct.
#[derive(Clone, Copy, PartialEq, Eq, Structural, Debug)]
pub enum FieldType {
    /// Not borrowed by other parts of the struct.
    Tail,
    /// Immutably borrowed by at least one other field.
    Borrowed,
    /// Mutably borrowed by one other field.
    BorrowedMut,
}

impl FieldType {
    pub fn is_tail(self) -> (r: bool)
        ensures
            r == (self is Tail),
    {
        self == Self::Tail
    }
}

/// One dependency edge: the index of the field depended upon, and whether
/// exclusive (mutable) access to it was requested.
#[derive(Clone, Copy, PartialEq, Eq, Structural, Debug)]
pub struct BorrowRequest {
    pub index: usize,
    pub mutable: bool,
}

/// A field's declared type: its flat token stream, and, where the type is a
/// `Box` with an argument, that first argument's tokens (used only by the
/// compatibility mode).
#[derive(Debug)]
pub struct FieldTy {
    pub tokens: Vec<TokenNode>,
    pub box_arg: Option<Vec<TokenNode>>,
}

/// The mathematical value of a declared type.
pub struct FieldTyView {
    pub tokens: Seq<TokenNode>,
    pub box_arg: Option<Seq<TokenNode>>,
}

impl View for FieldTy {
    type V = FieldTyView;

    open spec fn view(&self) -> FieldTyView {
        FieldTyView {
            tokens: self.tokens@,
            box_arg: match self.box_arg {
                Option::Some(v) => Option::Some(v@),
                Option::None => Option::None,
            },
        }
    }
}

impl FieldTy {
    /// An equal copy of this declared type.
    pub fn duplicate(&self) -> (r: FieldTy)
        ensures
            r@ == self@,
    {
        let tokens = crate::token::duplicate_stream(&self.tokens);
        let box_arg = match &self.box_arg {
            Option::Some(v) => Option::Some(crate::token::duplicate_stream(v)),
            Option::None => Option::None,
        };
        let r = FieldTy { tokens, box_arg };
        assert(r@.box_arg == self@.box_arg);
        r
    }
}

/// Everything the analysis records about one declared field.
#[derive(Debug)]
pub struct StructFieldInfo {
    /// The field's declared name.
    pub name: String,
    /// The field's declared type.
    pub typ: FieldTy,
    /// The role computed from the edges that target this field.
    pub field_type: FieldType,
    /// The dependency edges this field declares, in declaration order.
    pub borrows: Vec<BorrowRequest>,
}

impl StructFieldInfo {
    /// The name of the constructor argument that builds this field's value.
    pub fn builder_name(&self) -> (r: String)
        ensures
            r@ == self.name@ + "_builder"@,
    {
        self.name.clone().concat("_builder")
    }

    /// The name of the scope-erased reference taken to this field during
    /// construction.
    pub fn illegal_ref_name(&self) -> (r: String)
        ensures
            r@ == self.name@ + "_illegal_static_reference"@,
    {
        self.name.clone().concat("_illegal_static_reference")
    }

    /// Whether this field depends on nothing (a head field).
    pub open spec fn spec_is_head(&self) -> bool {
        self.borrows@.len() == 0
    }

    /// Whether this field depends on nothing (a head field).
    pub fn is_head(&self) -> (r: bool)
        ensures
            r == self.spec_is_head(),
    {
        self.borrows.len() == 0
    }
}

/// The names of all fields, as character sequences, in declaration order.
pub open spec fn names_of(fields: Seq<StructFieldInfo>) -> Seq<Seq<char>> {
    fields.map_values(|f: StructFieldInfo| f.name@)
}

/// The roles of all fields, in declaration order.
pub open spec fn roles_of(fields: Seq<StructFieldInfo>) -> Seq<FieldType> {
    fields.map_values(|f: StructFieldInfo| f.field_type)
}

/// How many edges of `edges` target field `j`.
pub open spec fn incoming_edges(edges: Seq<BorrowRequest>, j: int) -> nat
    decreases edges.len(),
{
    if edges.len() == 0 {
        0
    } else {
        incoming_edges(edges.drop_last(), j) + if edges.last().index == j {
            1nat
        } else {
            0nat
        }
    }
}

/// How many mutable edges of `edges` target field `j`.
pub open spec fn incoming_mut_edges(edges: Seq<BorrowRequest>, j: int) -> nat
    decreases edges.len(),
{
    if edges.len() == 0 {
        0
    } else {
        incoming_mut_edges(edges.drop_last(), j) + if edges.last().index == j
            && edges.last().mutable {
            1nat
        } else {
            0nat
        }
    }
}

/// All edges declared by all fields, flattened in declaration order.
pub open spec fn all_edges(fields: Seq<StructFieldInfo>) -> Seq<BorrowRequest>
    decreases fields.len(),
{
    if fields.len() == 0 {
        Seq::empty()
    } else {
        all_edges(fields.drop_last()) + fields.last().borrows@
    }
}

/// Whether a role agrees with the number of edges (and of mutable edges)
/// targeting the field: an unborrowed field is `Tail`; a field with only
/// immutable incoming edges is `Borrowed`; a field with a mutable incoming
/// edge is `BorrowedMut` and has exactly that one edge.
pub open spec fn role_matches_counts(role: FieldType, total: nat, muts: nat) -> bool {
    match role {
        FieldType::Tail => total == 0,
        FieldType::Borrowed => total > 0 && muts == 0,
        FieldType::BorrowedMut => total == 1 && muts == 1,
    }
}

/// Whether every field's role agrees with the edges of `edges` that target
/// it.  `roles` are the roles of the fields, by index.
pub open spec fn roles_match_edges(roles: Seq<FieldType>, edges: Seq<BorrowRequest>) -> bool {
    forall|j: int|
        0 <= j < roles.len() ==> role_matches_counts(
            #[trigger] roles[j],
            incoming_edges(edges, j),
            incoming_mut_edges(edges, j),
        )
}

/// Whether every declared edge points at a field declared strictly earlier.
/// This is the single rule that keeps the dependency graph acyclic.
pub open spec fn targets_declared_earlier(fields: Seq<StructFieldInfo>) -> bool {
    forall|i: int, k: int|
        0 <= i < fields.len() && 0 <= k < fields[i].borrows@.len()
            ==> (#[trigger] fields[i].borrows@[k]).index < i
}

/// A consistent set of field descriptors: acyclic by declaration order, and
/// every role in agreement with the declared edges.
pub open spec fn fields_wf(fields: Seq<StructFieldInfo>) -> bool {
    &&& targets_declared_earlier(fields)
    &&& roles_match_edges(roles_of(fields), all_edges(fields))
}

/// Counting edges distributes over appending one edge.
pub proof fn lemma_incoming_push(edges: Seq<BorrowRequest>, e: BorrowRequest, j: int)
    ensures
        incoming_edges(edges.push(e), j) == incoming_edges(edges, j) + if e.index == j {
            1nat
        } else {
            0nat
        },
        incoming_mut_edges(edges.push(e), j) == incoming_mut_edges(edges, j) + if e.index == j
            && e.mutable {
            1nat
        } else {
            0nat
        },
{
    assert(edges.push(e).drop_last() =~= edges);
    assert(edges.push(e).last() == e);
}

/// Counting edges distributes over concatenation.
pub proof fn lemma_incoming_add(a: Seq<BorrowRequest>, b: Seq<BorrowRequest>, j: int)
    ensures
        incoming_edges(a + b, j) == incoming_edges(a, j) + incoming_edges(b, j),
        incoming_mut_edges(a + b, j) == incoming_mut_edges(a, j) + incoming_mut_edges(b, j),
    decreases b.len(),
{
    if b.len() == 0 {
        assert(a + b =~= a);
    } else {
        lemma_incoming_add(a, b.drop_last(), j);
        assert((a + b).drop_last() =~= a + b.drop_last());
        assert((a + b).last() == b.last());
    }
}

/// There are never more mutable edges than edges.
pub proof fn lemma_mut_le_total(edges: Seq<BorrowRequest>, j: int)
    ensures
        incoming_mut_edges(edges, j) <= incoming_edges(edges, j),
    decreases edges.len(),
{
    if edges.len() > 0 {
        lemma_mut_le_total(edges.drop_last(), j);
    }
}

/// An empty edge list targets nothing.
pub proof fn lemma_incoming_empty(j: int)
    ensures
        incoming_edges(Seq::empty(), j) == 0,
        incoming_mut_edges(Seq::empty(), j) == 0,
{
}

/// The flattened edges of a field list extended by one field are the
/// flattened edges so far followed by the new field's edges.
pub proof fn lemma_all_edges_push(fields: Seq<StructFieldInfo>, f: StructFieldInfo)
    ensures
        all_edges(fields.push(f)) == all_edges(fields) + f.borrows@,
{
    assert(fields.push(f).drop_last() =~= fields);
    assert(fields.push(f).last() == f);
}

/// Whether every edge of `edges` targets an index strictly below `n`.
pub open spec fn edges_bounded(edges: Seq<BorrowRequest>, n: int) -> bool {
    forall|k: int| 0 <= k < edges.len() ==> (#[trigger] edges[k]).index < n
}

/// The flattened edges depend only on the fields' own edge lists, not on
/// their names, types, or roles.
pub proof fn lemma_all_edges_same_borrows(f1: Seq<StructFieldInfo>, f2: Seq<StructFieldInfo>)
    requires
        f1.len() == f2.len(),
        forall|j: int| 0 <= j < f1.len() ==> (#[trigger] f1[j]).borrows == f2[j].borrows,
    ensures
        all_edges(f1) == all_edges(f2),
    decreases f1.len(),
{
    if f1.len() > 0 {
        lemma_all_edges_same_borrows(f1.drop_last(), f2.drop_last());
        assert(f1.last().borrows == f2.last().borrows);
    }
}

/// In a list whose edges all point strictly backwards, the flattened edges
/// never reach the end of the list.
pub proof fn lemma_targets_bounded(fields: Seq<StructFieldInfo>)
    requires
        targets_declared_earlier(fields),
    ensures
        edges_bounded(all_edges(fields), fields.len() as int),
    decreases fields.len(),
{
    if fields.len() > 0 {
        let prefix = fields.drop_last();
        assert(targets_declared_earlier(prefix)) by {
            assert forall|i: int, k: int|
                0 <= i < prefix.len() && 0 <= k < prefix[i].borrows@.len() implies (#[trigger] prefix[i].borrows@[k]).index
                < i by {
                assert(fields[i].borrows@[k].index < i);
            }
        }
        lemma_targets_bounded(prefix);
        let last = fields.last();
        assert forall|k: int|
            0 <= k < all_edges(fields).len() implies (#[trigger] all_edges(fields)[k]).index
            < fields.len() by {
            if k < all_edges(prefix).len() {
                assert(all_edges(fields)[k] == all_edges(prefix)[k]);
            } else {
                let k2 = k - all_edges(prefix).len();
                assert(all_edges(fields)[k] == last.borrows@[k2]);
                assert(fields[fields.len() - 1].borrows@[k2].index < fields.len() - 1);
            }
        }
    }
}

/// Edges bounded below `n` target nothing at or beyond `n`.
pub proof fn lemma_no_incoming_beyond(edges: Seq<BorrowRequest>, n: int, j: int)
    requires
        edges_bounded(edges, n),
        j >= n,
    ensures
        incoming_edges(edges, j) == 0,
        incoming_mut_edges(edges, j) == 0,
    decreases edges.len(),
{
    if edges.len() > 0 {
        assert(edges_bounded(edges.drop_last(), n)) by {
            assert forall|k: int|
                0 <= k < edges.drop_last().len() implies (#[trigger] edges.drop_last()[k]).index
                < n by {
                assert(edges[k].index < n);
            }
        }
        lemma_no_incoming_beyond(edges.drop_last(), n, j);
        assert(edges[edges.len() - 1].index < n);
    }
}

/// A present edge is counted: the target of any edge has a positive
/// incoming count.
pub proof fn lemma_incoming_positive(edges: Seq<BorrowRequest>, k: int)
    requires
        0 <= k < edges.len(),
    ensures
        incoming_edges(edges, edges[k].index as int) > 0,
    decreases edges.len(),
{
    if k == edges.len() - 1 {
        assert(edges.last() == edges[k]);
    } else {
        lemma_incoming_positive(edges.drop_last(), k);
        assert(edges.drop_last()[k] == edges[k]);
    }
}


/// A positive incoming count means some edge with that target is present.
pub proof fn lemma_count_member(edges: Seq<BorrowRequest>, j: int)
    requires
        incoming_edges(edges, j) > 0,
    ensures
        exists|m: int| 0 <= m < edges.len() && (#[trigger] edges[m]).index == j,
    decreases edges.len(),
{
    if edges.last().index == j {
        assert(edges[edges.len() - 1].index == j);
    } else {
        lemma_count_member(edges.drop_last(), j);
        let m = choose|m: int|
            0 <= m < edges.drop_last().len() && (#[trigger] edges.drop_last()[m]).index == j;
        assert(edges[m].index == j);
    }
}

/// Whether some field's edge list holds an edge targeting `j`.
pub open spec fn some_edge_targets(fields: Seq<StructFieldInfo>, j: int) -> bool {
    exists|i: int, k: int|
        #![trigger fields[i].borrows@[k]]
        0 <= i < fields.len() && 0 <= k < fields[i].borrows@.len() && fields[i].borrows@[k].index
            == j
}

/// Every flattened edge is some field's own edge.
pub proof fn lemma_all_edges_member(fields: Seq<StructFieldInfo>, m: int)
    requires
        0 <= m < all_edges(fields).len(),
    ensures
        some_edge_targets(fields, all_edges(fields)[m].index as int),
    decreases fields.len(),
{
    let prefix = fields.drop_last();
    if m < all_edges(prefix).len() {
        lemma_all_edges_member(prefix, m);
        assert(all_edges(fields)[m] == all_edges(prefix)[m]);
        let (i, k) = choose|i: int, k: int|
            #![trigger prefix[i].borrows@[k]]
            0 <= i < prefix.len() && 0 <= k < prefix[i].borrows@.len() && prefix[i].borrows@[k].index
                == all_edges(prefix)[m].index;
        assert(fields[i].borrows@[k].index == all_edges(fields)[m].index);
    } else {
        let k = m - all_edges(prefix).len();
        assert(fields[fields.len() - 1].borrows@[k] == all_edges(fields)[m]);
    }
}

/// In a consistent field list, every borrowed field is the target of some
/// field's edge.
pub proof fn lemma_borrowed_is_targeted(fields: Seq<StructFieldInfo>, j: int)
    requires
        0 <= j < fields.len(),
        roles_match_edges(roles_of(fields), all_edges(fields)),
        !(fields[j].field_type is Tail),
    ensures
        some_edge_targets(fields, j),
{
    assert(role_matches_counts(
        roles_of(fields)[j],
        incoming_edges(all_edges(fields), j),
        incoming_mut_edges(all_edges(fields), j),
    ));
    lemma_count_member(all_edges(fields), j);
    let m = choose|m: int|
        0 <= m < all_edges(fields).len() && (#[trigger] all_edges(fields)[m]).index == j;
    lemma_all_edges_member(fields, m);
}

} // verus!
