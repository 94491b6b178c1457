//! The accessor synthesizer.
//!
//! Accessors are where the aliasing discipline is enforced.  A `Tail` field
//! (borrowed by nobody) gets a scoped read accessor and a scoped write
//! accessor.  A `Borrowed` field (immutably borrowed by other fields) gets a
//! scoped read accessor over its exposed content only — never a write
//! accessor.  A `BorrowedMut` field gets no accessor at all: any accessor
//! would create a second path to a field that is exclusively borrowed.
//!
//! The whole-aggregate operations follow the same rules: the combined read
//! borrows every `Tail` and `Borrowed` field at once, the combined write
//! only every `Tail` field, and head extraction consumes the aggregate,
//! keeping exactly the head fields and discarding the rest, dependents
//! first.

use vstd::prelude::*;
use vstd::string::StringExecFns;

use crate::construct::{content_of, deref_type, ContentType};
use crate::diag::{Diagnostic, ErrorKind};
use crate::field::{FieldType, StructFieldInfo};

verus! {

/// What one generated accessor lets its caller do.
#[derive(Debug, PartialEq, Eq)]
pub enum AccessorKind {
    /// A scoped shared reference to the field itself.
    Read,
    /// A scoped exclusive reference to the field itself.
    Write,
    /// A scoped shared reference to the field's exposed content.
    ReadContents(ContentType),
}

/// One generated per-field accessor.
#[derive(Debug)]
pub struct Accessor {
    pub field: usize,
    pub name: String,
    pub kind: AccessorKind,
}

/// How many accessors a field of the given role gets.
pub open spec fn accessor_count(role: FieldType) -> int {
    match role {
        FieldType::Tail => 2,
        FieldType::Borrowed => 1,
        FieldType::BorrowedMut => 0,
    }
}

/// Where field `i`'s accessors start in the flat accessor list.
pub open spec fn accessor_offset(fields: Seq<StructFieldInfo>, i: int) -> int
    decreases i,
{
    if i <= 0 {
        0
    } else {
        accessor_offset(fields, i - 1) + accessor_count(fields[i - 1].field_type)
    }
}

/// Whether one accessor is allowed to exist for its field's role: reads and
/// writes only of a `Tail` field, content reads only of a `Borrowed` field,
/// and nothing at all of a `BorrowedMut` field.
pub open spec fn accessor_allowed(fields: Seq<StructFieldInfo>, a: Accessor) -> bool {
    &&& a.field < fields.len()
    &&& match fields[a.field as int].field_type {
        FieldType::Tail => a.kind is Read || a.kind is Write,
        FieldType::Borrowed => a.kind is ReadContents,
        FieldType::BorrowedMut => false,
    }
}

/// Whether the accessor list holds exactly the right accessors for field
/// `i`, at its window of the list.
pub open spec fn field_accessors_ok(
    fields: Seq<StructFieldInfo>,
    i: int,
    acc: Seq<Accessor>,
    do_chain_hack: bool,
) -> bool {
    let off = accessor_offset(fields, i);
    match fields[i].field_type {
        FieldType::Tail => {
            &&& acc[off].field == i
            &&& acc[off].kind is Read
            &&& acc[off].name@ == "with_"@ + fields[i].name@
            &&& acc[off + 1].field == i
            &&& acc[off + 1].kind is Write
            &&& acc[off + 1].name@ == "with_"@ + fields[i].name@ + "_mut"@
        },
        FieldType::Borrowed => {
            &&& acc[off].field == i
            &&& acc[off].kind matches AccessorKind::ReadContents(c) && c@ == content_of(
                fields[i].typ@,
                do_chain_hack,
            )
            &&& acc[off].name@ == "with_"@ + fields[i].name@ + "_contents"@
        },
        FieldType::BorrowedMut => true,
    }
}

/// The first field, from `i` on, that is `Borrowed` but whose type is not a
/// `Box` (what compatibility mode rejects when exposing its content).
pub open spec fn first_unboxed_borrowed(fields: Seq<StructFieldInfo>, i: int) -> Option<int>
    decreases fields.len() - i,
{
    if i < 0 || i >= fields.len() {
        Option::None
    } else if fields[i].field_type is Borrowed && fields[i].typ@.box_arg is None {
        Option::Some(i)
    } else {
        first_unboxed_borrowed(fields, i + 1)
    }
}

/// If every field before `i` passes and `i` fails, `i` is the first.
pub proof fn lemma_first_unboxed_borrowed_at(fields: Seq<StructFieldInfo>, j: int, i: int)
    requires
        0 <= j <= i < fields.len(),
        forall|m: int|
            j <= m < i ==> !((#[trigger] fields[m]).field_type is Borrowed && fields[m].typ@.box_arg
                is None),
        fields[i].field_type is Borrowed && fields[i].typ@.box_arg is None,
    ensures
        first_unboxed_borrowed(fields, j) == Option::Some(i),
    decreases i - j,
{
    if j < i {
        lemma_first_unboxed_borrowed_at(fields, j + 1, i);
    }
}

/// If no field from `j` on fails the check, none is rejected.
pub proof fn lemma_no_unboxed_borrowed(fields: Seq<StructFieldInfo>, j: int)
    requires
        j >= 0,
        forall|m: int|
            j <= m < fields.len() ==> !((#[trigger] fields[m]).field_type is Borrowed
                && fields[m].typ@.box_arg is None),
    ensures
        first_unboxed_borrowed(fields, j) is None,
    decreases fields.len() - j,
{
    if j < fields.len() {
        lemma_no_unboxed_borrowed(fields, j + 1);
    }
}

/// Whether a flat accessor list is exactly what the fields' roles call
/// for.
pub open spec fn accessors_match(
    fields: Seq<StructFieldInfo>,
    acc: Seq<Accessor>,
    do_chain_hack: bool,
) -> bool {
    &&& acc.len() == accessor_offset(fields, fields.len() as int)
    &&& forall|i: int| 0 <= i < fields.len() ==> field_accessors_ok(fields, i, acc, do_chain_hack)
    &&& forall|k: int| 0 <= k < acc.len() ==> accessor_allowed(fields, #[trigger] acc[k])
}

/// Generates the per-field accessors, in field order.
///
/// Each field's window of the returned list holds exactly what its role
/// allows: scoped read and write accessors for a `Tail` field, one scoped
/// content-read accessor for a `Borrowed` field, nothing for a
/// `BorrowedMut` field — and every accessor in the list is one a role
/// allows.  In compatibility mode, fails on the first `Borrowed` field
/// whose type is not a `Box`.
pub fn make_with_functions(fields: &Vec<StructFieldInfo>, do_chain_hack: bool) -> (result: Result<
    Vec<Accessor>,
    Diagnostic,
>)
    ensures
        ({
            match first_unboxed_borrowed(fields@, 0) {
                Option::Some(i) => do_chain_hack ==> result == Result::<
                    Vec<Accessor>,
                    Diagnostic,
                >::Err(
                    Diagnostic {
                        kind: ErrorKind::NotABox,
                        field: Option::Some(i as usize),
                        token: Option::None,
                    },
                ),
                Option::None => true,
            }
        }),
        (!do_chain_hack || first_unboxed_borrowed(fields@, 0) is None) ==> (result matches Result::Ok(
            acc,
        ) && accessors_match(fields@, acc@, do_chain_hack)),
{
    let mut acc: Vec<Accessor> = Vec::new();
    let mut i: usize = 0;
    #[verifier::loop_isolation(false)]
    while i < fields.len()
        invariant
            i <= fields@.len(),
            acc@.len() == accessor_offset(fields@, i as int),
            forall|m: int| 0 <= m < i ==> field_accessors_ok(fields@, m, acc@, do_chain_hack),
            forall|k: int| 0 <= k < acc@.len() ==> accessor_allowed(fields@, #[trigger] acc@[k]),
            forall|m: int|
                0 <= m < i ==> !((#[trigger] fields@[m]).field_type is Borrowed
                    && fields@[m].typ@.box_arg is None) || !do_chain_hack,
        decreases fields@.len() - i,
    {
        let ghost acc_before = acc@;
        match fields[i].field_type {
            FieldType::Tail => {
                let read_name = "with_".to_owned().concat(fields[i].name.as_str());
                let write_name = "with_".to_owned().concat(fields[i].name.as_str()).concat(
                    "_mut",
                );
                acc.push(Accessor { field: i, name: read_name, kind: AccessorKind::Read });
                acc.push(Accessor { field: i, name: write_name, kind: AccessorKind::Write });
                proof {
                    let off = accessor_offset(fields@, i as int);
                    assert(acc@[off].field == i as usize && acc@[off].kind is Read);
                    assert(acc@[off + 1].field == i as usize && acc@[off + 1].kind is Write);
                }
            },
            FieldType::Borrowed => {
                let content = match deref_type(&fields[i].typ, do_chain_hack) {
                    Result::Ok(c) => c,
                    Result::Err(d) => {
                        proof {
                            lemma_first_unboxed_borrowed_at(fields@, 0, i as int);
                        }
                        return Result::Err(d.for_field(i));
                    },
                };
                let name = "with_".to_owned().concat(fields[i].name.as_str()).concat(
                    "_contents",
                );
                acc.push(Accessor { field: i, name, kind: AccessorKind::ReadContents(content) });
            },
            FieldType::BorrowedMut => {
                // No accessor: the one exclusive reference already exists
                // inside the struct, and a second path to the field would
                // break exclusivity.
            },
        }
        proof {
            assert forall|m: int|
                0 <= m < i + 1 implies field_accessors_ok(
                fields@,
                m,
                acc@,
                do_chain_hack,
            ) by {
                let off = accessor_offset(fields@, m);
                lemma_accessor_offset_monotonic(fields@, 0, m);
                assert(off >= 0);
                if m < i {
                    assert(field_accessors_ok(fields@, m, acc_before, do_chain_hack));
                    assert(off + accessor_count(fields@[m].field_type) <= accessor_offset(
                        fields@,
                        i as int,
                    )) by {
                        lemma_accessor_offset_monotonic(fields@, m + 1, i as int);
                    }
                    match fields@[m].field_type {
                        FieldType::Tail => {
                            assert(acc@[off] == acc_before[off]);
                            assert(acc@[off + 1] == acc_before[off + 1]);
                        },
                        FieldType::Borrowed => {
                            assert(acc@[off] == acc_before[off]);
                        },
                        FieldType::BorrowedMut => {},
                    }
                } else {
                    match fields@[m].field_type {
                        FieldType::Tail => {
                            assert(acc@[off] == acc_before.push(acc@[off]).push(acc@[off + 1])[
                                off]);
                        },
                        FieldType::Borrowed => {
                            assert(acc@.last() == acc@[off]);
                        },
                        FieldType::BorrowedMut => {},
                    }
                }
            }
        }
        i = i + 1;
    }
    proof {
        if do_chain_hack {
            lemma_no_unboxed_borrowed(fields@, 0);
        }
    }
    Result::Ok(acc)
}

/// Accessor windows never overlap: the offset is monotonic.
pub proof fn lemma_accessor_offset_monotonic(fields: Seq<StructFieldInfo>, a: int, b: int)
    requires
        a <= b,
    ensures
        accessor_offset(fields, a) <= accessor_offset(fields, b),
    decreases b - a,
{
    if a < b {
        lemma_accessor_offset_monotonic(fields, a, b - 1);
    }
}


/// One field's slot in a combined (whole-aggregate) borrow: the field, the
/// name the slot is exposed under, and — where one level of indirection is
/// stripped — the exposed content type.
#[derive(Debug)]
pub struct BorrowedFieldEntry {
    pub field: usize,
    pub name: String,
    pub contents: Option<ContentType>,
}

/// The planned combined accessors: the combined read exposes every `Tail`
/// and `Borrowed` field at once, the combined write every `Tail` field.
/// Both list their slots in reverse declaration order.
#[derive(Debug)]
pub struct WithAllPlan {
    pub fields: Vec<BorrowedFieldEntry>,
    pub mut_fields: Vec<BorrowedFieldEntry>,
}

/// How many slots of `s` expose field `j`.
pub open spec fn entry_count(s: Seq<BorrowedFieldEntry>, j: int) -> nat
    decreases s.len(),
{
    if s.len() == 0 {
        0
    } else {
        entry_count(s.drop_last(), j) + if s.last().field == j {
            1nat
        } else {
            0nat
        }
    }
}

/// Counting slots distributes over appending one slot.
pub proof fn lemma_entry_count_push(s: Seq<BorrowedFieldEntry>, e: BorrowedFieldEntry, j: int)
    ensures
        entry_count(s.push(e), j) == entry_count(s, j) + if e.field == j {
            1nat
        } else {
            0nat
        },
{
    assert(s.push(e).drop_last() =~= s);
}

/// Whether one combined-read slot is what its field's role calls for.
pub open spec fn read_entry_ok(
    fields: Seq<StructFieldInfo>,
    e: BorrowedFieldEntry,
    do_chain_hack: bool,
) -> bool {
    &&& e.field < fields.len()
    &&& match fields[e.field as int].field_type {
        FieldType::Tail => e.name@ == fields[e.field as int].name@ && e.contents is None,
        FieldType::Borrowed => {
            &&& e.name@ == fields[e.field as int].name@ + "_contents"@
            &&& e.contents matches Option::Some(c) && c@ == content_of(
                fields[e.field as int].typ@,
                do_chain_hack,
            )
        },
        FieldType::BorrowedMut => false,
    }
}

/// Whether one combined-write slot is what its field's role calls for:
/// only a `Tail` field may be exposed mutably.
pub open spec fn write_entry_ok(fields: Seq<StructFieldInfo>, e: BorrowedFieldEntry) -> bool {
    &&& e.field < fields.len()
    &&& fields[e.field as int].field_type is Tail
    &&& e.name@ == fields[e.field as int].name@
    &&& e.contents is None
}

/// The last field (the first one met walking in reverse declaration order,
/// from `j` down) that is `Borrowed` but not boxed.
pub open spec fn last_unboxed_borrowed(fields: Seq<StructFieldInfo>, j: int) -> Option<int>
    decreases j + 1,
{
    if j < 0 || j >= fields.len() {
        Option::None
    } else if fields[j].field_type is Borrowed && fields[j].typ@.box_arg is None {
        Option::Some(j)
    } else {
        last_unboxed_borrowed(fields, j - 1)
    }
}

/// If every field above `i` (up to `j`) passes and `i` fails, `i` is the
/// one the reverse walk finds.
pub proof fn lemma_last_unboxed_at(fields: Seq<StructFieldInfo>, j: int, i: int)
    requires
        0 <= i <= j < fields.len(),
        forall|m: int|
            i < m <= j ==> !((#[trigger] fields[m]).field_type is Borrowed && fields[m].typ@.box_arg
                is None),
        fields[i].field_type is Borrowed && fields[i].typ@.box_arg is None,
    ensures
        last_unboxed_borrowed(fields, j) == Option::Some(i),
    decreases j - i,
{
    if i < j {
        lemma_last_unboxed_at(fields, j - 1, i);
    }
}

/// If no field up to `j` fails the check, the reverse walk finds none.
pub proof fn lemma_last_unboxed_none(fields: Seq<StructFieldInfo>, j: int)
    requires
        j < fields.len(),
        forall|m: int|
            0 <= m <= j ==> !((#[trigger] fields[m]).field_type is Borrowed && fields[m].typ@.box_arg
                is None),
    ensures
        last_unboxed_borrowed(fields, j) is None,
    decreases j + 1,
{
    if j >= 0 {
        lemma_last_unboxed_none(fields, j - 1);
    }
}

/// Whether a combined-borrow plan is exactly what the fields' roles call
/// for: one read slot per field not exclusively borrowed and one write slot
/// per `Tail` field, each correct for its field, both lists in reverse
/// declaration order.
pub open spec fn with_all_matches(
    fields: Seq<StructFieldInfo>,
    plan: WithAllPlan,
    do_chain_hack: bool,
) -> bool {
    &&& forall|k: int|
        0 <= k < plan.fields@.len() ==> read_entry_ok(
            fields,
            #[trigger] plan.fields@[k],
            do_chain_hack,
        )
    &&& forall|j: int|
        0 <= j < fields.len() ==> entry_count(plan.fields@, j) == (
        if (#[trigger] fields[j]).field_type is BorrowedMut {
            0nat
        } else {
            1nat
        })
    &&& forall|k1: int, k2: int|
        0 <= k1 < k2 < plan.fields@.len() ==> (#[trigger] plan.fields@[k1]).field > (
        #[trigger] plan.fields@[k2]).field
    &&& forall|k: int|
        0 <= k < plan.mut_fields@.len() ==> write_entry_ok(fields, #[trigger] plan.mut_fields@[k])
    &&& forall|j: int|
        0 <= j < fields.len() ==> entry_count(plan.mut_fields@, j) == (
        if (#[trigger] fields[j]).field_type is Tail {
            1nat
        } else {
            0nat
        })
    &&& forall|k1: int, k2: int|
        0 <= k1 < k2 < plan.mut_fields@.len() ==> (#[trigger] plan.mut_fields@[k1]).field > (
        #[trigger] plan.mut_fields@[k2]).field
}

/// Plans the combined read and combined write accessors.
///
/// The combined read exposes, in reverse declaration order, exactly one
/// slot for every field that is not exclusively borrowed: a `Tail` field
/// under its own name, a `Borrowed` field's content under its name with a
/// content suffix.  The combined write exposes exactly one slot per `Tail`
/// field.  An exclusively borrowed field appears in neither.  In
/// compatibility mode, fails on the unboxed `Borrowed` field the reverse
/// walk meets first.
pub fn make_with_all_function(fields: &Vec<StructFieldInfo>, do_chain_hack: bool) -> (result:
    Result<WithAllPlan, Diagnostic>)
    ensures
        ({
            match last_unboxed_borrowed(fields@, fields@.len() - 1) {
                Option::Some(i) => do_chain_hack ==> result == Result::<
                    WithAllPlan,
                    Diagnostic,
                >::Err(
                    Diagnostic {
                        kind: ErrorKind::NotABox,
                        field: Option::Some(i as usize),
                        token: Option::None,
                    },
                ),
                Option::None => true,
            }
        }),
        (!do_chain_hack || last_unboxed_borrowed(fields@, fields@.len() - 1) is None) ==> (result
            matches Result::Ok(plan) && with_all_matches(fields@, plan, do_chain_hack)),
{
    let mut read_fields: Vec<BorrowedFieldEntry> = Vec::new();
    let mut mut_fields: Vec<BorrowedFieldEntry> = Vec::new();
    let mut k: usize = fields.len();
    #[verifier::loop_isolation(false)]
    while k > 0
        invariant
            k <= fields@.len(),
            forall|m: int|
                0 <= m < read_fields@.len() ==> read_entry_ok(
                    fields@,
                    #[trigger] read_fields@[m],
                    do_chain_hack,
                ),
            forall|m: int|
                0 <= m < read_fields@.len() ==> (#[trigger] read_fields@[m]).field >= k,
            forall|j: int|
                k <= j < fields@.len() ==> entry_count(read_fields@, j) == (
                if (#[trigger] fields@[j]).field_type is BorrowedMut {
                    0nat
                } else {
                    1nat
                }),
            forall|j: int| 0 <= j < k ==> entry_count(read_fields@, j) == 0,
            forall|k1: int, k2: int|
                0 <= k1 < k2 < read_fields@.len() ==> (#[trigger] read_fields@[k1]).field > (
                #[trigger] read_fields@[k2]).field,
            forall|m: int|
                0 <= m < mut_fields@.len() ==> write_entry_ok(fields@, #[trigger] mut_fields@[m]),
            forall|m: int| 0 <= m < mut_fields@.len() ==> (#[trigger] mut_fields@[m]).field >= k,
            forall|j: int|
                k <= j < fields@.len() ==> entry_count(mut_fields@, j) == (
                if (#[trigger] fields@[j]).field_type is Tail {
                    1nat
                } else {
                    0nat
                }),
            forall|j: int| 0 <= j < k ==> entry_count(mut_fields@, j) == 0,
            forall|k1: int, k2: int|
                0 <= k1 < k2 < mut_fields@.len() ==> (#[trigger] mut_fields@[k1]).field > (
                #[trigger] mut_fields@[k2]).field,
            forall|m: int|
                k <= m < fields@.len() ==> !((#[trigger] fields@[m]).field_type is Borrowed
                    && fields@[m].typ@.box_arg is None) || !do_chain_hack,
        decreases k,
    {
        k = k - 1;
        let ghost read_before = read_fields@;
        let ghost mut_before = mut_fields@;
        match fields[k].field_type {
            FieldType::Tail => {
                let name = fields[k].name.clone();
                read_fields.push(
                    BorrowedFieldEntry { field: k, name, contents: Option::None },
                );
                let mut_name = fields[k].name.clone();
                mut_fields.push(
                    BorrowedFieldEntry { field: k, name: mut_name, contents: Option::None },
                );
            },
            FieldType::Borrowed => {
                let content = match deref_type(&fields[k].typ, do_chain_hack) {
                    Result::Ok(c) => c,
                    Result::Err(d) => {
                        proof {
                            lemma_last_unboxed_at(fields@, fields@.len() - 1, k as int);
                        }
                        return Result::Err(d.for_field(k));
                    },
                };
                let name = fields[k].name.clone().concat("_contents");
                read_fields.push(
                    BorrowedFieldEntry { field: k, name, contents: Option::Some(content) },
                );
            },
            FieldType::BorrowedMut => {
                // Exposed nowhere: the field is exclusively borrowed.
            },
        }
        proof {
            assert forall|j: int| 0 <= j < fields@.len() implies ({
                &&& (k <= j ==> entry_count(read_fields@, j) == (
                if fields@[j].field_type is BorrowedMut {
                    0nat
                } else {
                    1nat
                }))
                &&& (j < k ==> entry_count(read_fields@, j) == 0)
                &&& (k <= j ==> entry_count(mut_fields@, j) == (
                if fields@[j].field_type is Tail {
                    1nat
                } else {
                    0nat
                }))
                &&& (j < k ==> entry_count(mut_fields@, j) == 0)
            }) by {
                if read_fields@.len() > read_before.len() {
                    lemma_entry_count_push(read_before, read_fields@.last(), j);
                }
                if mut_fields@.len() > mut_before.len() {
                    lemma_entry_count_push(mut_before, mut_fields@.last(), j);
                }
            }
        }
    }
    proof {
        if do_chain_hack {
            lemma_last_unboxed_none(fields@, fields@.len() - 1);
        }
    }
    Result::Ok(WithAllPlan { fields: read_fields, mut_fields })
}

/// One step of head extraction, in reverse declaration order: a head field
/// is kept and returned by value, a dependent field is discarded.
#[derive(Clone, Copy, PartialEq, Eq, Structural, Debug)]
pub enum HeadStep {
    Keep(usize),
    Discard(usize),
}

/// The planned head extraction: what happens to each field, in reverse
/// declaration order (so dependents are discarded before what they depend
/// on), and the kept (head) fields in that same order.
#[derive(Debug)]
pub struct HeadsPlan {
    pub steps: Vec<HeadStep>,
    pub heads: Vec<usize>,
}

/// How many entries of `s` are `j`.
pub open spec fn index_count(s: Seq<usize>, j: int) -> nat
    decreases s.len(),
{
    if s.len() == 0 {
        0
    } else {
        index_count(s.drop_last(), j) + if s.last() == j {
            1nat
        } else {
            0nat
        }
    }
}

/// Counting entries distributes over appending one.
pub proof fn lemma_index_count_push(s: Seq<usize>, e: usize, j: int)
    ensures
        index_count(s.push(e), j) == index_count(s, j) + if e == j {
            1nat
        } else {
            0nat
        },
{
    assert(s.push(e).drop_last() =~= s);
}

/// Whether a head-extraction plan is exactly right: each field, walked in
/// reverse declaration order, is kept if it is a head and discarded if not,
/// and the kept list holds exactly the head fields, each once, in that
/// order.
pub open spec fn heads_plan_matches(fields: Seq<StructFieldInfo>, plan: HeadsPlan) -> bool {
    &&& plan.steps@.len() == fields.len()
    &&& forall|m: int|
        0 <= m < plan.steps@.len() ==> #[trigger] plan.steps@[m] == (
        if fields[fields.len() - 1 - m].borrows@.len() == 0 {
            HeadStep::Keep((fields.len() - 1 - m) as usize)
        } else {
            HeadStep::Discard((fields.len() - 1 - m) as usize)
        })
    &&& forall|m: int|
        0 <= m < plan.heads@.len() ==> (#[trigger] plan.heads@[m]) < fields.len()
            && fields[plan.heads@[m] as int].borrows@.len() == 0
    &&& forall|j: int|
        0 <= j < fields.len() ==> index_count(plan.heads@, j) == (
        if (#[trigger] fields[j]).borrows@.len() == 0 {
            1nat
        } else {
            0nat
        })
    &&& forall|m1: int, m2: int|
        0 <= m1 < m2 < plan.heads@.len() ==> (#[trigger] plan.heads@[m1]) > (
        #[trigger] plan.heads@[m2])
}

/// Plans head extraction: walking the fields in reverse declaration order,
/// every field with at least one dependency is discarded and every head
/// field (one with none) is kept.  The kept set is exactly the set of head
/// fields — each exactly once — and the aggregate is consumed.
pub fn make_into_heads(fields: &Vec<StructFieldInfo>) -> (plan: HeadsPlan)
    ensures
        heads_plan_matches(fields@, plan),
{
    let mut steps: Vec<HeadStep> = Vec::new();
    let mut heads: Vec<usize> = Vec::new();
    let mut k: usize = fields.len();
    #[verifier::loop_isolation(false)]
    while k > 0
        invariant
            k <= fields@.len(),
            steps@.len() == fields@.len() - k,
            forall|m: int|
                0 <= m < steps@.len() ==> #[trigger] steps@[m] == (
                if fields@[fields@.len() - 1 - m].borrows@.len() == 0 {
                    HeadStep::Keep((fields@.len() - 1 - m) as usize)
                } else {
                    HeadStep::Discard((fields@.len() - 1 - m) as usize)
                }),
            forall|m: int|
                0 <= m < heads@.len() ==> (#[trigger] heads@[m]) < fields@.len() && (
                #[trigger] heads@[m]) >= k && fields@[heads@[m] as int].borrows@.len() == 0,
            forall|j: int|
                k <= j < fields@.len() ==> index_count(heads@, j) == (
                if (#[trigger] fields@[j]).borrows@.len() == 0 {
                    1nat
                } else {
                    0nat
                }),
            forall|j: int| 0 <= j < k ==> index_count(heads@, j) == 0,
            forall|m1: int, m2: int|
                0 <= m1 < m2 < heads@.len() ==> (#[trigger] heads@[m1]) > (#[trigger] heads@[m2]),
        decreases k,
    {
        k = k - 1;
        let ghost heads_before = heads@;
        if fields[k].is_head() {
            steps.push(HeadStep::Keep(k));
            heads.push(k);
        } else {
            steps.push(HeadStep::Discard(k));
        }
        proof {
            assert forall|j: int| 0 <= j < fields@.len() implies ({
                &&& (k <= j ==> index_count(heads@, j) == (
                if fields@[j].borrows@.len() == 0 {
                    1nat
                } else {
                    0nat
                }))
                &&& (j < k ==> index_count(heads@, j) == 0)
            }) by {
                if heads@.len() > heads_before.len() {
                    lemma_index_count_push(heads_before, heads@.last(), j);
                }
            }
        }
    }
    HeadsPlan { steps, heads }
}

} // verus!
