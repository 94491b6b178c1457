//! The constructor synthesizer.
//!
//! A field with no dependencies is passed to the constructor as a plain
//! value; a field with dependencies is passed as a one-shot function that
//! receives references to exactly the fields it declared, in the mutability
//! it requested, and returns the field's value.  The referenced fields are
//! exposed through one level of indirection: normally as their `Deref`
//! target, or — in compatibility mode — as the argument of their `Box` type,
//! which is then required.
//!
//! Two construction paths are planned over these argument types: the eager
//! one, which materializes each field in declaration order and takes a
//! scope-erased reference to every borrowed field right after it is
//! written, and the fallible one, which additionally plans, for each
//! dependent field, what a failure there hands back and releases.

use vstd::prelude::*;
use vstd::string::StringExecFns;

use crate::diag::{Diagnostic, ErrorKind};
use crate::field::{targets_declared_earlier, FieldTy, FieldType, StructFieldInfo};
use crate::token::TokenNode;

verus! {

/// The exposed content type of a dependency target: the argument of its
/// `Box` type (compatibility mode), or its `Deref` target.
#[derive(Debug, PartialEq, Eq)]
pub enum ContentType {
    /// The tokens of the `Box` argument.
    BoxArg(Vec<TokenNode>),
    /// The `Deref` target of the type with these tokens.
    DerefTarget(Vec<TokenNode>),
}

/// The mathematical value of a content type.
pub enum ContentTypeView {
    BoxArg(Seq<TokenNode>),
    DerefTarget(Seq<TokenNode>),
}

impl View for ContentType {
    type V = ContentTypeView;

    open spec fn view(&self) -> ContentTypeView {
        match self {
            ContentType::BoxArg(v) => ContentTypeView::BoxArg(v@),
            ContentType::DerefTarget(v) => ContentTypeView::DerefTarget(v@),
        }
    }
}

/// What [`deref_type`] exposes for a target type, when it succeeds.
pub open spec fn content_of(typ: crate::field::FieldTyView, do_chain_hack: bool) -> ContentTypeView {
    if do_chain_hack {
        ContentTypeView::BoxArg(typ.box_arg->Some_0)
    } else {
        ContentTypeView::DerefTarget(typ.tokens)
    }
}

/// The content type a dependency on a field of type `field_type` exposes.
///
/// Without compatibility mode, every type works: the content is its `Deref`
/// target.  In compatibility mode the type must be a `Box`, and the content
/// is the `Box`'s argument; any other type is rejected.
pub fn deref_type(field_type: &FieldTy, do_chain_hack: bool) -> (result: Result<
    ContentType,
    Diagnostic,
>)
    ensures
        ({
            if do_chain_hack && field_type@.box_arg is None {
                result == Result::<ContentType, Diagnostic>::Err(
                    Diagnostic {
                        kind: ErrorKind::NotABox,
                        field: Option::None,
                        token: Option::None,
                    },
                )
            } else {
                result matches Result::Ok(c) && c@ == content_of(field_type@, do_chain_hack)
            }
        }),
{
    if do_chain_hack {
        match &field_type.box_arg {
            Option::Some(arg) => Result::Ok(ContentType::BoxArg(crate::token::duplicate_stream(arg))),
            Option::None => Result::Err(Diagnostic::structural(ErrorKind::NotABox)),
        }
    } else {
        Result::Ok(ContentType::DerefTarget(crate::token::duplicate_stream(&field_type.tokens)))
    }
}

/// One parameter of a dependent field's one-shot constructor function: a
/// reference to `target`, mutable if the edge asked for exclusive access,
/// exposing the target's content type.
#[derive(Debug, PartialEq, Eq)]
pub struct BuilderParam {
    pub mutable: bool,
    pub target: usize,
    pub content: ContentType,
}

/// How one field is passed to the constructor.
#[derive(Debug, PartialEq, Eq)]
pub enum ArgType {
    /// The field's value is moved in directly.
    Plain,
    /// The field's value is produced by a one-shot function with these
    /// parameters.
    TraitBound(Vec<BuilderParam>),
}

/// The position of the first edge of `edges`, from position `k` on, whose
/// target's type is not a `Box` (what compatibility mode rejects).
pub open spec fn first_unboxed_from(
    fields: Seq<StructFieldInfo>,
    edges: Seq<crate::field::BorrowRequest>,
    k: int,
) -> Option<int>
    decreases edges.len() - k,
{
    if k < 0 || k >= edges.len() {
        Option::None
    } else if fields[edges[k].index as int].typ@.box_arg is None {
        Option::Some(k)
    } else {
        first_unboxed_from(fields, edges, k + 1)
    }
}

/// If every edge before `k` has a boxed target and `k`'s target is not
/// boxed, then `k` is the first unboxed edge.
pub proof fn lemma_first_unboxed_at(
    fields: Seq<StructFieldInfo>,
    edges: Seq<crate::field::BorrowRequest>,
    j: int,
    k: int,
)
    requires
        0 <= j <= k < edges.len(),
        forall|m: int| j <= m < k ==> !((#[trigger] fields[edges[m].index as int].typ@.box_arg)
            is None),
        fields[edges[k].index as int].typ@.box_arg is None,
    ensures
        first_unboxed_from(fields, edges, j) == Option::Some(k),
    decreases k - j,
{
    if j < k {
        lemma_first_unboxed_at(fields, edges, j + 1, k);
    }
}

/// If every edge from `j` on has a boxed target, no edge is unboxed.
pub proof fn lemma_no_unboxed(
    fields: Seq<StructFieldInfo>,
    edges: Seq<crate::field::BorrowRequest>,
    j: int,
)
    requires
        j >= 0,
        forall|m: int| j <= m < edges.len() ==> !((#[trigger] fields[edges[m].index
            as int].typ@.box_arg) is None),
    ensures
        first_unboxed_from(fields, edges, j) is None,
    decreases edges.len() - j,
{
    if j < edges.len() {
        lemma_no_unboxed(fields, edges, j + 1);
    }
}

/// Whether one parameter of a one-shot constructor function matches the
/// edge it stands for.
pub open spec fn builder_param_matches(
    fields: Seq<StructFieldInfo>,
    e: crate::field::BorrowRequest,
    p: BuilderParam,
    do_chain_hack: bool,
) -> bool {
    &&& p.mutable == e.mutable
    &&& p.target == e.index
    &&& p.content@ == content_of(fields[e.index as int].typ@, do_chain_hack)
}

/// Whether a whole argument type matches a field's declaration: plain
/// exactly when the field has no dependencies, otherwise one parameter per
/// edge, in declaration order.
pub open spec fn arg_type_matches(
    fields: Seq<StructFieldInfo>,
    index: int,
    arg: ArgType,
    do_chain_hack: bool,
) -> bool {
    match arg {
        ArgType::Plain => fields[index].borrows@.len() == 0,
        ArgType::TraitBound(ps) => {
            &&& fields[index].borrows@.len() > 0
            &&& ps@.len() == fields[index].borrows@.len()
            &&& forall|k: int|
                0 <= k < ps@.len() ==> builder_param_matches(
                    fields,
                    fields[index].borrows@[k],
                    #[trigger] ps@[k],
                    do_chain_hack,
                )
        },
    }
}

/// The type used in the constructor to initialize field `index`: a plain
/// type if the field refers to no other fields, and a one-shot function
/// bound if it does.  In compatibility mode, fails on the first referenced
/// field whose type is not a `Box`, naming that field.
pub fn make_constructor_arg_type_impl(
    fields: &Vec<StructFieldInfo>,
    index: usize,
    do_chain_hack: bool,
) -> (result: Result<ArgType, Diagnostic>)
    requires
        index < fields@.len(),
        targets_declared_earlier(fields@),
    ensures
        ({
            match first_unboxed_from(fields@, fields@[index as int].borrows@, 0) {
                Option::Some(k) => do_chain_hack ==> result == Result::<ArgType, Diagnostic>::Err(
                    Diagnostic {
                        kind: ErrorKind::NotABox,
                        field: Option::Some(fields@[index as int].borrows@[k].index),
                        token: Option::None,
                    },
                ),
                Option::None => true,
            }
        }),
        (!do_chain_hack || first_unboxed_from(fields@, fields@[index as int].borrows@, 0)
            is None) ==> (result matches Result::Ok(arg) && arg_type_matches(
            fields@,
            index as int,
            arg,
            do_chain_hack,
        )),
{
    let ghost edges = fields@[index as int].borrows@;
    if fields[index].borrows.len() == 0 {
        return Result::Ok(ArgType::Plain);
    }
    let mut ps: Vec<BuilderParam> = Vec::new();
    let mut k: usize = 0;
    let n = fields[index].borrows.len();
    #[verifier::loop_isolation(false)]
    while k < n
        invariant
            k <= n,
            ps@.len() == k,
            forall|m: int| 0 <= m < k ==> !((#[trigger] fields@[edges[m].index as int].typ@.box_arg)
                is None) || !do_chain_hack,
            forall|m: int|
                0 <= m < k ==> builder_param_matches(
                    fields@,
                    edges[m],
                    #[trigger] ps@[m],
                    do_chain_hack,
                ),
        decreases n - k,
    {
        let borrow = fields[index].borrows[k];
        proof {
            assert(fields@[index as int].borrows@[k as int].index < index);
        }
        let target = borrow.index;
        match deref_type(&fields[target].typ, do_chain_hack) {
            Result::Ok(content) => {
                ps.push(BuilderParam { mutable: borrow.mutable, target, content });
            },
            Result::Err(d) => {
                proof {
                    lemma_first_unboxed_at(fields@, edges, 0, k as int);
                }
                return Result::Err(d.for_field(target));
            },
        }
        k = k + 1;
    }
    proof {
        if do_chain_hack {
            lemma_no_unboxed(fields@, edges, 0);
        }
    }
    Result::Ok(ArgType::TraitBound(ps))
}

/// Returns a trait bound if the field refers to any other fields, and a
/// plain type if not.  This is the type used in the eager constructor to
/// initialize the field's value.
pub fn make_constructor_arg_type(
    fields: &Vec<StructFieldInfo>,
    index: usize,
    do_chain_hack: bool,
) -> (result: Result<ArgType, Diagnostic>)
    requires
        index < fields@.len(),
        targets_declared_earlier(fields@),
    ensures
        ({
            match first_unboxed_from(fields@, fields@[index as int].borrows@, 0) {
                Option::Some(k) => do_chain_hack ==> result == Result::<ArgType, Diagnostic>::Err(
                    Diagnostic {
                        kind: ErrorKind::NotABox,
                        field: Option::Some(fields@[index as int].borrows@[k].index),
                        token: Option::None,
                    },
                ),
                Option::None => true,
            }
        }),
        (!do_chain_hack || first_unboxed_from(fields@, fields@[index as int].borrows@, 0)
            is None) ==> (result matches Result::Ok(arg) && arg_type_matches(
            fields@,
            index as int,
            arg,
            do_chain_hack,
        )),
{
    make_constructor_arg_type_impl(fields, index, do_chain_hack)
}

/// Like [`make_constructor_arg_type`], but for the fallible constructor,
/// whose one-shot functions return a `Result` of the field's value instead
/// of the value itself.  The parameter list is the same; only the rendered
/// return type differs.
pub fn make_try_constructor_arg_type(
    fields: &Vec<StructFieldInfo>,
    index: usize,
    do_chain_hack: bool,
) -> (result: Result<ArgType, Diagnostic>)
    requires
        index < fields@.len(),
        targets_declared_earlier(fields@),
    ensures
        ({
            match first_unboxed_from(fields@, fields@[index as int].borrows@, 0) {
                Option::Some(k) => do_chain_hack ==> result == Result::<ArgType, Diagnostic>::Err(
                    Diagnostic {
                        kind: ErrorKind::NotABox,
                        field: Option::Some(fields@[index as int].borrows@[k].index),
                        token: Option::None,
                    },
                ),
                Option::None => true,
            }
        }),
        (!do_chain_hack || first_unboxed_from(fields@, fields@[index as int].borrows@, 0)
            is None) ==> (result matches Result::Ok(arg) && arg_type_matches(
            fields@,
            index as int,
            arg,
            do_chain_hack,
        )),
{
    make_constructor_arg_type_impl(fields, index, do_chain_hack)
}


/// One parameter of a generated constructor: its name (the field's own name
/// for a plain value, the field's builder name for a one-shot function),
/// how it is passed, and — for a one-shot function — the name of the
/// builder struct's type parameter that carries it.
#[derive(Debug)]
pub struct ConstructorParam {
    pub name: String,
    pub arg: ArgType,
    pub generic: Option<String>,
}

/// One materialization step of the eager constructor, for one field in
/// declaration order: whether its value is produced by invoking its
/// one-shot function on references to these targets, and whether a
/// scope-erased reference (mutable or not) is taken to the field right
/// after it is written, for later fields to use.
#[derive(Debug)]
pub struct FieldInit {
    pub invoke: Option<Vec<usize>>,
    pub make_ref: Option<bool>,
}

/// The planned eager constructor and its builder: the parameter list, the
/// materialization steps in declaration order, and the builder struct's
/// field names (one per parameter, same order — its terminal operation
/// forwards them unchanged).
#[derive(Debug)]
pub struct ConstructorPlan {
    pub params: Vec<ConstructorParam>,
    pub inits: Vec<FieldInit>,
    pub builder_fields: Vec<String>,
}

/// Whether one constructor parameter matches its field's declaration.
pub open spec fn param_matches(
    fields: Seq<StructFieldInfo>,
    i: int,
    p: ConstructorParam,
    do_chain_hack: bool,
) -> bool {
    &&& arg_type_matches(fields, i, p.arg, do_chain_hack)
    &&& if fields[i].borrows@.len() == 0 {
        p.name@ == fields[i].name@ && p.generic is None
    } else {
        &&& p.name@ == fields[i].name@ + "_builder"@
        &&& p.generic matches Option::Some(g) && g@ == crate::casing::class_case_of(
            fields[i].name@,
        ) + "Builder_"@
    }
}

/// Whether one materialization step matches its field's declaration: the
/// one-shot function is invoked exactly for a dependent field, on its
/// declared targets in order, and a reference is taken exactly to a
/// borrowed field, mutably exactly to an exclusively borrowed one.
pub open spec fn init_matches(fields: Seq<StructFieldInfo>, i: int, init: FieldInit) -> bool {
    &&& match init.invoke {
        Option::Some(v) => {
            &&& fields[i].borrows@.len() > 0
            &&& v@.len() == fields[i].borrows@.len()
            &&& forall|k: int| 0 <= k < v@.len() ==> #[trigger] v@[k] == fields[i].borrows@[k].index
        },
        Option::None => fields[i].borrows@.len() == 0,
    }
    &&& init.make_ref == (match fields[i].field_type {
        FieldType::Tail => Option::<bool>::None,
        FieldType::Borrowed => Option::Some(false),
        FieldType::BorrowedMut => Option::Some(true),
    })
}

/// Whether a whole constructor plan matches the fields.
pub open spec fn plan_matches(
    fields: Seq<StructFieldInfo>,
    plan: ConstructorPlan,
    do_chain_hack: bool,
) -> bool {
    &&& plan.params@.len() == fields.len()
    &&& forall|i: int|
        0 <= i < fields.len() ==> param_matches(fields, i, #[trigger] plan.params@[i], do_chain_hack)
    &&& plan.inits@.len() == fields.len()
    &&& forall|i: int| 0 <= i < fields.len() ==> init_matches(fields, i, #[trigger] plan.inits@[i])
    &&& plan.builder_fields@.len() == fields.len()
    &&& forall|i: int|
        0 <= i < fields.len() ==> (#[trigger] plan.builder_fields@[i])@ == plan.params@[i].name@
}

/// The first field, from `i` on, that compatibility mode rejects (because
/// it depends on a field whose type is not a `Box`).
pub open spec fn first_bad_field_from(fields: Seq<StructFieldInfo>, i: int) -> Option<int>
    decreases fields.len() - i,
{
    if i < 0 || i >= fields.len() {
        Option::None
    } else if first_unboxed_from(fields, fields[i].borrows@, 0) is Some {
        Option::Some(i)
    } else {
        first_bad_field_from(fields, i + 1)
    }
}

/// If every field before `i` passes the compatibility check and `i` fails
/// it, then `i` is the first rejected field.
pub proof fn lemma_first_bad_at(fields: Seq<StructFieldInfo>, j: int, i: int)
    requires
        0 <= j <= i < fields.len(),
        forall|m: int|
            j <= m < i ==> first_unboxed_from(fields, (#[trigger] fields[m]).borrows@, 0) is None,
        first_unboxed_from(fields, fields[i].borrows@, 0) is Some,
    ensures
        first_bad_field_from(fields, j) == Option::Some(i),
    decreases i - j,
{
    if j < i {
        lemma_first_bad_at(fields, j + 1, i);
    }
}

/// If every field from `j` on passes the compatibility check, none is
/// rejected.
pub proof fn lemma_no_bad_field(fields: Seq<StructFieldInfo>, j: int)
    requires
        j >= 0,
        forall|m: int|
            j <= m < fields.len() ==> first_unboxed_from(fields, (#[trigger] fields[m]).borrows@, 0)
                is None,
    ensures
        first_bad_field_from(fields, j) is None,
    decreases fields.len() - j,
{
    if j < fields.len() {
        lemma_no_bad_field(fields, j + 1);
    }
}

/// The diagnostic the constructor synthesizer reports for the first field
/// that compatibility mode rejects.
pub open spec fn chain_diag(fields: Seq<StructFieldInfo>, i: int) -> Diagnostic {
    Diagnostic {
        kind: ErrorKind::NotABox,
        field: Option::Some(
            fields[i].borrows@[first_unboxed_from(fields, fields[i].borrows@, 0)->Some_0].index,
        ),
        token: Option::None,
    }
}

/// Plans the eager constructor and its builder.
///
/// One parameter and one materialization step per field, in declaration
/// order: plain fields are moved in, dependent fields are produced by their
/// one-shot function applied to references to their (already materialized)
/// targets, and a scope-erased reference is taken to every borrowed field
/// right after it is written.  The builder struct carries exactly the
/// parameters, in order, and its terminal operation forwards them to the
/// constructor unchanged.  In compatibility mode, fails on the first field
/// that depends on an unboxed type.
pub fn create_builder_and_constructor(
    fields: &Vec<StructFieldInfo>,
    do_chain_hack: bool,
) -> (result: Result<ConstructorPlan, Diagnostic>)
    requires
        targets_declared_earlier(fields@),
    ensures
        ({
            match first_bad_field_from(fields@, 0) {
                Option::Some(i) => do_chain_hack ==> result == Result::<
                    ConstructorPlan,
                    Diagnostic,
                >::Err(chain_diag(fields@, i)),
                Option::None => true,
            }
        }),
        (!do_chain_hack || first_bad_field_from(fields@, 0) is None) ==> (result matches Result::Ok(
            plan,
        ) && plan_matches(fields@, plan, do_chain_hack)),
{
    let mut params: Vec<ConstructorParam> = Vec::new();
    let mut inits: Vec<FieldInit> = Vec::new();
    let mut builder_fields: Vec<String> = Vec::new();
    let mut i: usize = 0;
    #[verifier::loop_isolation(false)]
    while i < fields.len()
        invariant
            i <= fields@.len(),
            params@.len() == i,
            inits@.len() == i,
            builder_fields@.len() == i,
            forall|m: int|
                0 <= m < i ==> param_matches(fields@, m, #[trigger] params@[m], do_chain_hack),
            forall|m: int| 0 <= m < i ==> init_matches(fields@, m, #[trigger] inits@[m]),
            forall|m: int|
                0 <= m < i ==> (#[trigger] builder_fields@[m])@ == params@[m].name@,
            forall|m: int|
                0 <= m < i ==> first_unboxed_from(fields@, (#[trigger] fields@[m]).borrows@, 0)
                    is None || !do_chain_hack,
        decreases fields@.len() - i,
    {
        let arg = match make_constructor_arg_type(fields, i, do_chain_hack) {
            Result::Ok(arg) => arg,
            Result::Err(d) => {
                proof {
                    lemma_first_bad_at(fields@, 0, i as int);
                }
                return Result::Err(d);
            },
        };
        let (name, generic) = if fields[i].borrows.len() == 0 {
            (fields[i].name.clone(), Option::None)
        } else {
            let g = crate::casing::to_class_case(fields[i].name.as_str()).concat("Builder_");
            (fields[i].builder_name(), Option::Some(g))
        };
        let invoke = if fields[i].borrows.len() == 0 {
            Option::None
        } else {
            let mut targets: Vec<usize> = Vec::new();
            let mut k: usize = 0;
            let n = fields[i].borrows.len();
            #[verifier::loop_isolation(false)]
            while k < n
                invariant
                    k <= n,
                    targets@.len() == k,
                    forall|m: int|
                        0 <= m < k ==> #[trigger] targets@[m] == fields@[i as int].borrows@[m].index,
                decreases n - k,
            {
                targets.push(fields[i].borrows[k].index);
                k = k + 1;
            }
            Option::Some(targets)
        };
        let make_ref = match fields[i].field_type {
            FieldType::Tail => Option::None,
            FieldType::Borrowed => Option::Some(false),
            FieldType::BorrowedMut => Option::Some(true),
        };
        builder_fields.push(name.clone());
        params.push(ConstructorParam { name, arg, generic });
        inits.push(FieldInit { invoke, make_ref });
        i = i + 1;
    }
    proof {
        if do_chain_hack {
            lemma_no_bad_field(fields@, 0);
        }
    }
    Result::Ok(ConstructorPlan { params, inits, builder_fields })
}


/// One head field's recovery entry in a fallible constructor's failure
/// path: the head's index, and whether its value is read back out of the
/// partially built storage (it was already materialized) or taken from the
/// still-owned constructor parameter (it was not yet).
#[derive(Clone, Copy, PartialEq, Eq, Structural, Debug)]
pub struct HeadRecovery {
    pub field: usize,
    pub from_storage: bool,
}

/// One materialization step of the fallible constructor.  For a dependent
/// field (whose one-shot function may fail) the step also plans the failure
/// path: which head fields are recovered and from where, and which already
/// materialized dependent fields are released, in reverse materialization
/// order.
#[derive(Debug)]
pub struct TryFieldInit {
    pub invoke: Option<Vec<usize>>,
    pub make_ref: Option<bool>,
    pub recovered: Option<Vec<HeadRecovery>>,
    pub released: Option<Vec<usize>>,
}

/// The planned fallible constructor and its builder.
#[derive(Debug)]
pub struct TryConstructorPlan {
    pub params: Vec<ConstructorParam>,
    pub inits: Vec<TryFieldInit>,
    pub builder_fields: Vec<String>,
}

/// The recovery entries for a failure at field `i`, over the first `m`
/// fields: every head field in declaration order, from storage exactly if
/// it was declared (hence materialized) before `i`.
pub open spec fn head_recoveries_upto(
    fields: Seq<StructFieldInfo>,
    i: int,
    m: int,
) -> Seq<HeadRecovery>
    decreases m,
{
    if m <= 0 {
        Seq::empty()
    } else {
        let rest = head_recoveries_upto(fields, i, m - 1);
        if fields[m - 1].borrows@.len() == 0 {
            rest.push(HeadRecovery { field: (m - 1) as usize, from_storage: m - 1 < i })
        } else {
            rest
        }
    }
}

/// The dependent fields with index in `[m, i)`, in descending (reverse
/// materialization) order: what a failure at field `i` releases.
pub open spec fn released_between(fields: Seq<StructFieldInfo>, m: int, i: int) -> Seq<usize>
    decreases i - m,
{
    if i <= m {
        Seq::empty()
    } else if fields[i - 1].borrows@.len() > 0 {
        seq![(i - 1) as usize] + released_between(fields, m, i - 1)
    } else {
        released_between(fields, m, i - 1)
    }
}

/// Walking the lower bound of [`released_between`] one field down appends
/// that field exactly if it is dependent.
pub proof fn lemma_released_extend(fields: Seq<StructFieldInfo>, m: int, i: int)
    requires
        0 < m <= i,
    ensures
        released_between(fields, m - 1, i) == released_between(fields, m, i) + (
        if fields[m - 1].borrows@.len() > 0 {
            seq![(m - 1) as usize]
        } else {
            Seq::<usize>::empty()
        }),
    decreases i - m,
{
    if i == m {
        assert(released_between(fields, m, i) =~= Seq::<usize>::empty());
        if fields[m - 1].borrows@.len() > 0 {
            assert(released_between(fields, m - 1, i) =~= Seq::<usize>::empty() + seq![
                (m - 1) as usize,
            ]);
        } else {
            assert(released_between(fields, m - 1, i) =~= Seq::<usize>::empty()
                + Seq::<usize>::empty());
        }
    } else {
        lemma_released_extend(fields, m, i - 1);
        if fields[i - 1].borrows@.len() > 0 {
            assert(released_between(fields, m - 1, i) =~= released_between(fields, m, i) + (
            if fields[m - 1].borrows@.len() > 0 {
                seq![(m - 1) as usize]
            } else {
                Seq::<usize>::empty()
            }));
        } else {
            assert(released_between(fields, m - 1, i) == released_between(fields, m - 1, i - 1));
        }
    }
}

/// Whether one fallible materialization step matches its field's
/// declaration, including its failure path.
pub open spec fn try_init_matches(
    fields: Seq<StructFieldInfo>,
    i: int,
    init: TryFieldInit,
) -> bool {
    &&& match init.invoke {
        Option::Some(v) => {
            &&& fields[i].borrows@.len() > 0
            &&& v@.len() == fields[i].borrows@.len()
            &&& forall|k: int| 0 <= k < v@.len() ==> #[trigger] v@[k] == fields[i].borrows@[k].index
        },
        Option::None => fields[i].borrows@.len() == 0,
    }
    &&& init.make_ref == (match fields[i].field_type {
        FieldType::Tail => Option::<bool>::None,
        FieldType::Borrowed => Option::Some(false),
        FieldType::BorrowedMut => Option::Some(true),
    })
    &&& match init.recovered {
        Option::Some(r) => fields[i].borrows@.len() > 0 && r@ == head_recoveries_upto(
            fields,
            i,
            fields.len() as int,
        ),
        Option::None => fields[i].borrows@.len() == 0,
    }
    &&& match init.released {
        Option::Some(rel) => fields[i].borrows@.len() > 0 && rel@ == released_between(
            fields,
            0,
            i,
        ),
        Option::None => fields[i].borrows@.len() == 0,
    }
}

/// Whether a whole fallible constructor plan matches the fields.
pub open spec fn try_plan_matches(
    fields: Seq<StructFieldInfo>,
    plan: TryConstructorPlan,
    do_chain_hack: bool,
) -> bool {
    &&& plan.params@.len() == fields.len()
    &&& forall|i: int|
        0 <= i < fields.len() ==> param_matches(fields, i, #[trigger] plan.params@[i], do_chain_hack)
    &&& plan.inits@.len() == fields.len()
    &&& forall|i: int|
        0 <= i < fields.len() ==> try_init_matches(fields, i, #[trigger] plan.inits@[i])
    &&& plan.builder_fields@.len() == fields.len()
    &&& forall|i: int|
        0 <= i < fields.len() ==> (#[trigger] plan.builder_fields@[i])@ == plan.params@[i].name@
}

/// Plans the fallible constructor and its builder.
///
/// Materialization is identical to the eager path, but each dependent
/// field's one-shot function may fail; for each such field the plan records
/// the failure path: every head field is recovered (from the partially
/// built storage if it was declared before the failing field, from its
/// still-owned parameter otherwise), and every dependent field materialized
/// before the failing one is released, in reverse materialization order.
pub fn create_try_builder_and_constructor(
    fields: &Vec<StructFieldInfo>,
    do_chain_hack: bool,
) -> (result: Result<TryConstructorPlan, Diagnostic>)
    requires
        targets_declared_earlier(fields@),
    ensures
        ({
            match first_bad_field_from(fields@, 0) {
                Option::Some(i) => do_chain_hack ==> result == Result::<
                    TryConstructorPlan,
                    Diagnostic,
                >::Err(chain_diag(fields@, i)),
                Option::None => true,
            }
        }),
        (!do_chain_hack || first_bad_field_from(fields@, 0) is None) ==> (result matches Result::Ok(
            plan,
        ) && try_plan_matches(fields@, plan, do_chain_hack)),
{
    let mut params: Vec<ConstructorParam> = Vec::new();
    let mut inits: Vec<TryFieldInit> = Vec::new();
    let mut builder_fields: Vec<String> = Vec::new();
    let mut i: usize = 0;
    #[verifier::loop_isolation(false)]
    while i < fields.len()
        invariant
            i <= fields@.len(),
            params@.len() == i,
            inits@.len() == i,
            builder_fields@.len() == i,
            forall|m: int|
                0 <= m < i ==> param_matches(fields@, m, #[trigger] params@[m], do_chain_hack),
            forall|m: int| 0 <= m < i ==> try_init_matches(fields@, m, #[trigger] inits@[m]),
            forall|m: int|
                0 <= m < i ==> (#[trigger] builder_fields@[m])@ == params@[m].name@,
            forall|m: int|
                0 <= m < i ==> first_unboxed_from(fields@, (#[trigger] fields@[m]).borrows@, 0)
                    is None || !do_chain_hack,
        decreases fields@.len() - i,
    {
        let arg = match make_try_constructor_arg_type(fields, i, do_chain_hack) {
            Result::Ok(arg) => arg,
            Result::Err(d) => {
                proof {
                    lemma_first_bad_at(fields@, 0, i as int);
                }
                return Result::Err(d);
            },
        };
        let dependent = fields[i].borrows.len() > 0;
        let (name, generic) = if !dependent {
            (fields[i].name.clone(), Option::None)
        } else {
            let g = crate::casing::to_class_case(fields[i].name.as_str()).concat("Builder_");
            (fields[i].builder_name(), Option::Some(g))
        };
        let invoke = if !dependent {
            Option::None
        } else {
            let mut targets: Vec<usize> = Vec::new();
            let mut k: usize = 0;
            let n = fields[i].borrows.len();
            #[verifier::loop_isolation(false)]
            while k < n
                invariant
                    k <= n,
                    targets@.len() == k,
                    forall|m: int|
                        0 <= m < k ==> #[trigger] targets@[m] == fields@[i as int].borrows@[m].index,
                decreases n - k,
            {
                targets.push(fields[i].borrows[k].index);
                k = k + 1;
            }
            Option::Some(targets)
        };
        let make_ref = match fields[i].field_type {
            FieldType::Tail => Option::None,
            FieldType::Borrowed => Option::Some(false),
            FieldType::BorrowedMut => Option::Some(true),
        };
        let recovered = if !dependent {
            Option::None
        } else {
            let mut r: Vec<HeadRecovery> = Vec::new();
            let mut m: usize = 0;
            #[verifier::loop_isolation(false)]
            while m < fields.len()
                invariant
                    m <= fields@.len(),
                    r@ == head_recoveries_upto(fields@, i as int, m as int),
                decreases fields@.len() - m,
            {
                if fields[m].borrows.len() == 0 {
                    r.push(HeadRecovery { field: m, from_storage: m < i });
                }
                m = m + 1;
            }
            Option::Some(r)
        };
        let released = if !dependent {
            Option::None
        } else {
            let mut rel: Vec<usize> = Vec::new();
            let mut m: usize = i;
            #[verifier::loop_isolation(false)]
            while m > 0
                invariant
                    m <= i,
                    rel@ == released_between(fields@, m as int, i as int),
                decreases m,
            {
                proof {
                    lemma_released_extend(fields@, m as int, i as int);
                }
                m = m - 1;
                if fields[m].borrows.len() > 0 {
                    rel.push(m);
                    assert(rel@ =~= released_between(fields@, m as int, i as int));
                } else {
                    assert(rel@ =~= released_between(fields@, m as int, i as int));
                }
            }
            Option::Some(rel)
        };
        builder_fields.push(name.clone());
        params.push(ConstructorParam { name, arg, generic });
        inits.push(TryFieldInit { invoke, make_ref, recovered, released });
        i = i + 1;
    }
    proof {
        if do_chain_hack {
            lemma_no_bad_field(fields@, 0);
        }
    }
    Result::Ok(TryConstructorPlan { params, inits, builder_fields })
}

} // verus!
