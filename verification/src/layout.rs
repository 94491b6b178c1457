//! The field classifier and layout planner.
//!
//! [`create_actual_struct`] runs the whole analysis over a schema's field
//! list: it parses each field's dependency declaration against the fields
//! before it, checks the structural rules (named fields, at least two of
//! them, at least one dependency), and plans the physical storage: fields in
//! reverse declaration order — so the host runtime's default teardown
//! destroys dependents before their dependencies — with every symbolic
//! validity marker in their types erased.
//!
//! The analysis is specified functionally by [`analyze_run`], a fold of the
//! dependency parser over the fields in declaration order.

use vstd::prelude::*;

use crate::borrows::{
    attr_body, handle_borrows_attr, init_state, parse_run, lemma_run_preserves, OuterToken,
    ParseOutcome, ParserState,
};
use crate::diag::{Diagnostic, ErrorKind};
use crate::field::{
    all_edges, edges_bounded, fields_wf, incoming_edges, incoming_mut_edges,
    lemma_all_edges_push, lemma_all_edges_same_borrows, lemma_incoming_positive,
    lemma_no_incoming_beyond, lemma_targets_bounded, names_of, role_matches_counts,
    roles_match_edges, roles_of, targets_declared_earlier, BorrowRequest, FieldTy, FieldType,
    StructFieldInfo,
};
use crate::token::{replace_this_with_static, subst_stream, views_of, TokenNode};

verus! {

/// One declared field as the host parser hands it over: its name, its
/// declared type, and the raw tokens of its dependency attribute, if it
/// carries one.
#[derive(Debug)]
pub struct RawField {
    pub name: String,
    pub typ: FieldTy,
    pub borrows_attr: Option<Vec<OuterToken>>,
}

/// The shape of the declared schema.  Only a struct with named fields can be
/// made self-referential.
#[derive(Debug)]
pub enum FieldsShape {
    /// Named fields, in declaration order.
    Named(Vec<RawField>),
    /// Positional (tuple) fields.
    Unnamed,
    /// No fields at all.
    Unit,
}

/// One slot of the planned physical storage: the field's name and its
/// stored type, with the validity marker erased.
#[derive(Debug)]
pub struct StorageField {
    pub name: String,
    pub typ_tokens: Vec<TokenNode>,
}

/// The outcome of the analysis pass: classified fields in declaration
/// order, and the planned storage in reverse declaration order.
#[derive(Debug)]
pub struct ActualStruct {
    pub fields: Vec<StructFieldInfo>,
    pub storage: Vec<StorageField>,
}

/// The names of the raw fields, in declaration order.
pub open spec fn raw_names(raws: Seq<RawField>) -> Seq<Seq<char>> {
    raws.map_values(|r: RawField| r.name@)
}

/// Each field's recorded edge list, in declaration order.
pub open spec fn borrow_lists(fields: Seq<StructFieldInfo>) -> Seq<Seq<BorrowRequest>> {
    fields.map_values(|f: StructFieldInfo| f.borrows@)
}

/// The state of the analysis after some prefix of the fields: every
/// processed field's role and edge list, or the first rejection.
pub enum FieldAnalysis {
    Accepted { roles: Seq<FieldType>, edges: Seq<Seq<BorrowRequest>> },
    Rejected { field: int, kind: ErrorKind, token: Option<int> },
}

/// The analysis of the first `n` fields: each field's declaration is parsed
/// against the fields before it (updating their roles in place), and the
/// field itself joins the list with role `Tail` — later declarations may
/// promote it.
pub open spec fn analyze_run(raws: Seq<RawField>, n: int) -> FieldAnalysis
    decreases n,
{
    if n <= 0 {
        FieldAnalysis::Accepted { roles: Seq::empty(), edges: Seq::empty() }
    } else {
        match analyze_run(raws, n - 1) {
            FieldAnalysis::Accepted { roles, edges } => {
                let names = raw_names(raws).subrange(0, n - 1);
                let st0 = ParserState {
                    roles: roles,
                    edges: Seq::empty(),
                    borrow_mut: false,
                    awaiting_comma: false,
                };
                match raws[n - 1].borrows_attr {
                    Option::None => FieldAnalysis::Accepted {
                        roles: roles.push(FieldType::Tail),
                        edges: edges.push(Seq::empty()),
                    },
                    Option::Some(attr) => match attr_body(attr@) {
                        Option::None => FieldAnalysis::Rejected {
                            field: n - 1,
                            kind: ErrorKind::BorrowsSyntax,
                            token: Option::None,
                        },
                        Option::Some(toks) => match parse_run(names, st0, toks, toks.len() as int) {
                            ParseOutcome::Going(st) => FieldAnalysis::Accepted {
                                roles: st.roles.push(FieldType::Tail),
                                edges: edges.push(st.edges),
                            },
                            ParseOutcome::Failed { kind, token } => FieldAnalysis::Rejected {
                                field: n - 1,
                                kind: kind,
                                token: Option::Some(token),
                            },
                        },
                    },
                }
            },
            rejected => rejected,
        }
    }
}

/// Once a field is rejected, the analysis of any longer prefix reports the
/// same rejection.
pub proof fn lemma_analyze_sticky(raws: Seq<RawField>, k: int, m: int)
    requires
        0 <= k <= m,
        analyze_run(raws, k) is Rejected,
    ensures
        analyze_run(raws, m) == analyze_run(raws, k),
    decreases m - k,
{
    if m > k {
        lemma_analyze_sticky(raws, k, m - 1);
    }
}

/// Whether an analysis outcome (classified fields and planned storage)
/// matches the raw schema: the fields carry the names and types of the raw
/// fields and the roles and edges the analysis computes, they are mutually
/// consistent, and the storage is the exact reverse of declaration order
/// with every validity marker erased.
pub open spec fn analysis_result_matches(
    raws: Seq<RawField>,
    fields: Seq<StructFieldInfo>,
    storage: Seq<StorageField>,
) -> bool {
    &&& analyze_run(raws, raws.len() as int) matches FieldAnalysis::Accepted { roles, edges }
        && roles_of(fields) == roles && borrow_lists(fields) == edges
    &&& fields.len() == raws.len()
    &&& forall|i: int|
        0 <= i < raws.len() ==> (#[trigger] fields[i]).name@ == raws[i].name@ && fields[i].typ@
            == raws[i].typ@
    &&& fields_wf(fields)
    &&& storage.len() == fields.len()
    &&& forall|i: int|
        0 <= i < storage.len() ==> {
            &&& (#[trigger] storage[i]).name@ == fields[fields.len() - 1 - i].name@
            &&& views_of(storage[i].typ_tokens@) == subst_stream(
                views_of(fields[fields.len() - 1 - i].typ.tokens@),
            )
        }
}

/// The diagnostic a rejection turns into.
pub open spec fn rejection_diag(field: int, kind: ErrorKind, token: Option<int>) -> Diagnostic {
    Diagnostic {
        kind: kind,
        field: Option::Some(field as usize),
        token: match token {
            Option::Some(t) => Option::Some(t as usize),
            Option::None => Option::None,
        },
    }
}

/// Runs the dependency parser and the classifier over the declared schema
/// and plans the storage layout.
///
/// Succeeds exactly on a named-field schema whose every dependency
/// declaration parses, with at least two fields of which at least one
/// declares a dependency.  On success the returned fields carry the roles
/// and edges that [`analyze_run`] computes, they are mutually consistent
/// ([`fields_wf`]), and the storage list is the exact reverse of declaration
/// order with every type's validity marker erased.  On failure the
/// diagnostic names the offending rule, field, and token.
#[verifier::loop_isolation(false)]
pub fn create_actual_struct(shape: FieldsShape) -> (result: Result<ActualStruct, Diagnostic>)
    ensures
        ({
            match shape {
                FieldsShape::Unnamed => result == Result::<ActualStruct, Diagnostic>::Err(
                    Diagnostic {
                        kind: ErrorKind::TupleStruct,
                        field: Option::None,
                        token: Option::None,
                    },
                ),
                FieldsShape::Unit => result == Result::<ActualStruct, Diagnostic>::Err(
                    Diagnostic {
                        kind: ErrorKind::UnitStruct,
                        field: Option::None,
                        token: Option::None,
                    },
                ),
                FieldsShape::Named(raws) => match analyze_run(raws@, raws@.len() as int) {
                    FieldAnalysis::Rejected { field, kind, token } => result
                        == Result::<ActualStruct, Diagnostic>::Err(rejection_diag(field, kind, token)),
                    FieldAnalysis::Accepted { roles, edges } => {
                        if raws@.len() < 2 {
                            result == Result::<ActualStruct, Diagnostic>::Err(
                                Diagnostic {
                                    kind: ErrorKind::TooFewFields,
                                    field: Option::None,
                                    token: Option::None,
                                },
                            )
                        } else if forall|i: int|
                            0 <= i < edges.len() ==> (#[trigger] edges[i]).len() == 0 {
                            result == Result::<ActualStruct, Diagnostic>::Err(
                                Diagnostic {
                                    kind: ErrorKind::NoSelfReference,
                                    field: Option::Some(0usize),
                                    token: Option::None,
                                },
                            )
                        } else {
                            result matches Result::Ok(a) && analysis_result_matches(
                                raws@,
                                a.fields@,
                                a.storage@,
                            )
                        }
                    },
                },
            }
        }),
{
    let raws: Vec<RawField> = match shape {
        FieldsShape::Named(raws) => raws,
        FieldsShape::Unnamed => {
            return Result::Err(Diagnostic::structural(ErrorKind::TupleStruct));
        },
        FieldsShape::Unit => {
            return Result::Err(Diagnostic::structural(ErrorKind::UnitStruct));
        },
    };
    let mut field_info: Vec<StructFieldInfo> = Vec::new();
    proof {
        assert(roles_of(field_info@) =~= Seq::<FieldType>::empty());
        assert(borrow_lists(field_info@) =~= Seq::<Seq<BorrowRequest>>::empty());
        assert(names_of(field_info@) =~= raw_names(raws@).subrange(0, 0));
    }
    let mut i: usize = 0;
    while i < raws.len()
        invariant
            i <= raws@.len(),
            field_info@.len() == i,
            analyze_run(raws@, i as int) == (FieldAnalysis::Accepted {
                roles: roles_of(field_info@),
                edges: borrow_lists(field_info@),
            }),
            forall|k: int|
                0 <= k < i ==> (#[trigger] field_info@[k]).name@ == raws@[k].name@
                    && field_info@[k].typ@ == raws@[k].typ@,
            names_of(field_info@) == raw_names(raws@).subrange(0, i as int),
            targets_declared_earlier(field_info@),
            roles_match_edges(roles_of(field_info@), all_edges(field_info@)),
        decreases raws@.len() - i,
    {
        let ghost head_fields = field_info@;
        let raw = &raws[i];
        let mut borrows: Vec<BorrowRequest> = Vec::new();
        let ghost st0 = init_state(field_info@, borrows@);
        match &raw.borrows_attr {
            Option::Some(attr) => {
                match handle_borrows_attr(&mut field_info, attr, &mut borrows) {
                    Result::Ok(()) => {
                        proof {
                            assert(st0.edges =~= Seq::<BorrowRequest>::empty());
                            assert(st0 == ParserState {
                                roles: roles_of(head_fields),
                                edges: Seq::<BorrowRequest>::empty(),
                                borrow_mut: false,
                                awaiting_comma: false,
                            });
                            let toks = attr_body(attr@)->Some_0;
                            assert(parse_run(names_of(head_fields), st0, toks, toks.len() as int)
                                is Going);
                            lemma_run_preserves(
                                names_of(head_fields),
                                st0,
                                toks,
                                toks.len() as int,
                                all_edges(head_fields),
                            );
                        }
                    },
                    Result::Err(d) => {
                        proof {
                            assert(st0.edges =~= Seq::<BorrowRequest>::empty());
                            assert(st0 == ParserState {
                                roles: roles_of(head_fields),
                                edges: Seq::<BorrowRequest>::empty(),
                                borrow_mut: false,
                                awaiting_comma: false,
                            });
                            assert(analyze_run(raws@, i + 1) is Rejected);
                            lemma_analyze_sticky(raws@, i + 1, raws@.len() as int);
                        }
                        return Result::Err(d.for_field(i));
                    },
                }
            },
            Option::None => {},
        }
        let ghost parsed_state = (match raws@[i as int].borrows_attr {
            Option::Some(attr) => parse_run(
                names_of(head_fields),
                ParserState {
                    roles: roles_of(head_fields),
                    edges: Seq::<BorrowRequest>::empty(),
                    borrow_mut: false,
                    awaiting_comma: false,
                },
                attr_body(attr@)->Some_0,
                attr_body(attr@)->Some_0.len() as int,
            )->Going_0,
            Option::None => ParserState {
                roles: roles_of(head_fields),
                edges: Seq::<BorrowRequest>::empty(),
                borrow_mut: false,
                awaiting_comma: false,
            },
        });
        proof {
            if raws@[i as int].borrows_attr is None {
                assert(field_info@ == head_fields);
                assert(borrows@ =~= Seq::<BorrowRequest>::empty());
            }
            assert(roles_of(field_info@) == parsed_state.roles);
            assert(borrows@ == parsed_state.edges);
            assert(edges_bounded(parsed_state.edges, i as int));
            assert(roles_match_edges(
                parsed_state.roles,
                all_edges(head_fields) + parsed_state.edges,
            )) by {
                if raws@[i as int].borrows_attr is None {
                    assert(all_edges(head_fields) + parsed_state.edges =~= all_edges(
                        head_fields,
                    ));
                }
            }
        }
        let new_field = StructFieldInfo {
            name: raw.name.clone(),
            typ: raw.typ.duplicate(),
            field_type: FieldType::Tail,
            borrows,
        };
        let ghost before_push = field_info@;
        field_info.push(new_field);
        proof {
            lemma_step_analysis(
                raws@,
                i as int,
                head_fields,
                before_push,
                field_info@,
                parsed_state,
            );
        }
        i = i + 1;
    }
    if field_info.len() < 2 {
        return Result::Err(Diagnostic::structural(ErrorKind::TooFewFields));
    }
    let mut has_non_tail = false;
    let mut j: usize = 0;
    while j < field_info.len()
        invariant
            j <= field_info@.len(),
            has_non_tail == exists|k: int|
                0 <= k < j && !((#[trigger] field_info@[k]).field_type is Tail),
        decreases field_info@.len() - j,
    {
        if !field_info[j].field_type.is_tail() {
            has_non_tail = true;
            assert(!(field_info@[j as int].field_type is Tail));
        }
        j = j + 1;
    }
    if !has_non_tail {
        proof {
            lemma_all_tail_no_edges(field_info@);
        }
        return Result::Err(Diagnostic::structural(ErrorKind::NoSelfReference).for_field(0));
    }
    proof {
        lemma_non_tail_some_edges(field_info@);
    }
    let mut storage: Vec<StorageField> = Vec::new();
    let mut k: usize = field_info.len();
    while k > 0
        invariant
            k <= field_info@.len(),
            storage@.len() == field_info@.len() - k,
            forall|m: int|
                0 <= m < storage@.len() ==> {
                    &&& (#[trigger] storage@[m]).name@ == field_info@[
                        field_info@.len() - 1 - m].name@
                    &&& views_of(storage@[m].typ_tokens@) == subst_stream(
                        views_of(field_info@[field_info@.len() - 1 - m].typ.tokens@),
                    )
                },
        decreases k,
    {
        k = k - 1;
        let sf = StorageField {
            name: field_info[k].name.clone(),
            typ_tokens: replace_this_with_static(&field_info[k].typ.tokens),
        };
        storage.push(sf);
    }
    Result::Ok(ActualStruct { fields: field_info, storage })
}

/// Appending a freshly parsed field preserves the analysis invariant: the
/// fold takes one more step, the names stay those of the raw fields, and
/// classification consistency carries over to the extended list.
proof fn lemma_step_analysis(
    raws: Seq<RawField>,
    i: int,
    head_fields: Seq<StructFieldInfo>,
    updated_fields: Seq<StructFieldInfo>,
    new_fields: Seq<StructFieldInfo>,
    st: ParserState,
)
    requires
        0 <= i < raws.len(),
        head_fields.len() == i,
        updated_fields.len() == i,
        new_fields == updated_fields.push(new_fields.last()),
        new_fields.len() == i + 1,
        // what the analysis fold has established so far
        analyze_run(raws, i) == (FieldAnalysis::Accepted {
            roles: roles_of(head_fields),
            edges: borrow_lists(head_fields),
        }),
        forall|k: int|
            0 <= k < i ==> (#[trigger] head_fields[k]).name@ == raws[k].name@
                && head_fields[k].typ@ == raws[k].typ@,
        names_of(head_fields) == raw_names(raws).subrange(0, i),
        targets_declared_earlier(head_fields),
        // what the parser did to the previously processed fields
        forall|k: int|
            0 <= k < i ==> {
                &&& (#[trigger] updated_fields[k]).name == head_fields[k].name
                &&& updated_fields[k].typ == head_fields[k].typ
                &&& updated_fields[k].borrows == head_fields[k].borrows
            },
        roles_of(updated_fields) == st.roles,
        edges_bounded(st.edges, i),
        roles_match_edges(st.roles, all_edges(head_fields) + st.edges),
        st.roles.len() == i,
        // the new field
        new_fields.last().name@ == raws[i].name@,
        new_fields.last().typ@ == raws[i].typ@,
        new_fields.last().field_type is Tail,
        new_fields.last().borrows@ == st.edges,
        // how the analysis describes the next step
        analyze_run(raws, i + 1) == (FieldAnalysis::Accepted {
            roles: st.roles.push(FieldType::Tail),
            edges: borrow_lists(head_fields).push(st.edges),
        }),
    ensures
        analyze_run(raws, i + 1) == (FieldAnalysis::Accepted {
            roles: roles_of(new_fields),
            edges: borrow_lists(new_fields),
        }),
        forall|k: int|
            0 <= k < i + 1 ==> (#[trigger] new_fields[k]).name@ == raws[k].name@
                && new_fields[k].typ@ == raws[k].typ@,
        names_of(new_fields) == raw_names(raws).subrange(0, i + 1),
        targets_declared_earlier(new_fields),
        roles_match_edges(roles_of(new_fields), all_edges(new_fields)),
{
    let f = new_fields.last();
    assert(roles_of(new_fields) =~= st.roles.push(FieldType::Tail));
    assert(borrow_lists(updated_fields) =~= borrow_lists(head_fields));
    assert(borrow_lists(new_fields) =~= borrow_lists(head_fields).push(st.edges));
    assert forall|k: int|
        0 <= k < i + 1 implies (#[trigger] new_fields[k]).name@ == raws[k].name@
        && new_fields[k].typ@ == raws[k].typ@ by {
        if k < i {
            assert(new_fields[k] == updated_fields[k]);
            assert(updated_fields[k].name == head_fields[k].name);
        }
    }
    assert(names_of(new_fields) =~= raw_names(raws).subrange(0, i + 1));
    // acyclicity: old edges unchanged, the new field's edges point below i
    assert forall|a: int, b: int|
        0 <= a < new_fields.len() && 0 <= b < new_fields[a].borrows@.len() implies (
    #[trigger] new_fields[a].borrows@[b]).index < a by {
        if a < i {
            assert(new_fields[a].borrows == head_fields[a].borrows);
            assert(head_fields[a].borrows@[b].index < a);
        } else {
            assert(new_fields[a].borrows@[b] == st.edges[b]);
        }
    }
    // classification: the flattened edges of the new list are the old ones
    // plus the new field's
    lemma_all_edges_same_borrows(updated_fields, head_fields);
    lemma_all_edges_push(updated_fields, f);
    assert(all_edges(new_fields) == all_edges(head_fields) + st.edges);
    lemma_targets_bounded(head_fields);
    assert forall|j: int|
        0 <= j < roles_of(new_fields).len() implies role_matches_counts(
        #[trigger] roles_of(new_fields)[j],
        incoming_edges(all_edges(new_fields), j),
        incoming_mut_edges(all_edges(new_fields), j),
    ) by {
        if j < i {
            assert(roles_of(new_fields)[j] == st.roles[j]);
        } else {
            assert(roles_of(new_fields)[j] is Tail);
            assert(edges_bounded(all_edges(head_fields) + st.edges, i)) by {
                assert forall|m: int|
                    0 <= m < (all_edges(head_fields) + st.edges).len() implies (#[trigger] (
                all_edges(head_fields) + st.edges)[m]).index < i by {
                    if m < all_edges(head_fields).len() {
                        assert((all_edges(head_fields) + st.edges)[m]
                            == all_edges(head_fields)[m]);
                    } else {
                        assert((all_edges(head_fields) + st.edges)[m]
                            == st.edges[m - all_edges(head_fields).len()]);
                    }
                }
            }
            lemma_no_incoming_beyond(all_edges(head_fields) + st.edges, i, j);
        }
    }
}

/// If every field is a `Tail`, no field declares any dependency.
proof fn lemma_all_tail_no_edges(fields: Seq<StructFieldInfo>)
    requires
        targets_declared_earlier(fields),
        roles_match_edges(roles_of(fields), all_edges(fields)),
        forall|k: int| 0 <= k < fields.len() ==> (#[trigger] fields[k]).field_type is Tail,
    ensures
        forall|i: int| 0 <= i < borrow_lists(fields).len() ==> (#[trigger] borrow_lists(
            fields,
        )[i]).len() == 0,
{
    lemma_targets_bounded(fields);
    assert(all_edges(fields).len() == 0) by {
        if all_edges(fields).len() > 0 {
            let e = all_edges(fields)[0];
            lemma_incoming_positive(all_edges(fields), 0);
            assert(e.index < fields.len());
            assert(roles_of(fields)[e.index as int] is Tail);
            assert(role_matches_counts(
                roles_of(fields)[e.index as int],
                incoming_edges(all_edges(fields), e.index as int),
                incoming_mut_edges(all_edges(fields), e.index as int),
            ));
            assert(false);
        }
    }
    lemma_all_edges_empty(fields);
}

/// If the flattened edge list is empty, every field's own edge list is.
proof fn lemma_all_edges_empty(fields: Seq<StructFieldInfo>)
    requires
        all_edges(fields).len() == 0,
    ensures
        forall|i: int| 0 <= i < borrow_lists(fields).len() ==> (#[trigger] borrow_lists(
            fields,
        )[i]).len() == 0,
    decreases fields.len(),
{
    if fields.len() > 0 {
        lemma_all_edges_empty(fields.drop_last());
        assert forall|i: int|
            0 <= i < borrow_lists(fields).len() implies (#[trigger] borrow_lists(fields)[i]).len()
            == 0 by {
            if i < fields.len() - 1 {
                assert(borrow_lists(fields.drop_last())[i] == fields[i].borrows@);
            } else {
                assert(borrow_lists(fields)[i] == fields.last().borrows@);
            }
        }
    }
}

/// If some field is not a `Tail`, some field declares a dependency.
proof fn lemma_non_tail_some_edges(fields: Seq<StructFieldInfo>)
    requires
        targets_declared_earlier(fields),
        roles_match_edges(roles_of(fields), all_edges(fields)),
        exists|k: int| 0 <= k < fields.len() && !((#[trigger] fields[k]).field_type is Tail),
    ensures
        !(forall|i: int| 0 <= i < borrow_lists(fields).len() ==> (#[trigger] borrow_lists(
            fields,
        )[i]).len() == 0),
{
    let k = choose|k: int| 0 <= k < fields.len() && !((#[trigger] fields[k]).field_type is Tail);
    assert(role_matches_counts(
        roles_of(fields)[k],
        incoming_edges(all_edges(fields), k),
        incoming_mut_edges(all_edges(fields), k),
    ));
    assert(incoming_edges(all_edges(fields), k) > 0);
    assert(all_edges(fields).len() > 0) by {
        if all_edges(fields).len() == 0 {
            assert(all_edges(fields) =~= Seq::<BorrowRequest>::empty());
            crate::field::lemma_incoming_empty(k);
        }
    }
    lemma_some_edges_nonempty(fields);
    let w = choose|i: int|
        0 <= i < fields.len() && (#[trigger] fields[i].borrows@).len() > 0;
    assert(borrow_lists(fields)[w].len() > 0);
}

/// If the flattened edge list is nonempty, some field's own edge list is.
proof fn lemma_some_edges_nonempty(fields: Seq<StructFieldInfo>)
    requires
        all_edges(fields).len() > 0,
    ensures
        exists|i: int| 0 <= i < fields.len() && (#[trigger] fields[i].borrows@).len() > 0,
    decreases fields.len(),
{
    if fields.last().borrows@.len() > 0 {
        assert(fields[fields.len() - 1].borrows@.len() > 0);
    } else {
        assert(all_edges(fields) =~= all_edges(fields.drop_last()));
        lemma_some_edges_nonempty(fields.drop_last());
        let i = choose|i: int|
            0 <= i < fields.drop_last().len() && (#[trigger] fields.drop_last()[i].borrows@).len()
                > 0;
        assert(fields[i].borrows@.len() > 0);
    }
}

} // verus!
