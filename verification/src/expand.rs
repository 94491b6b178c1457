//! The engine's entry: option parsing and the whole transformation.
//!
//! [`self_referencing_impl`] runs the full pipeline over one schema: the
//! dependency parser and classifier, the layout planner, both constructor
//! synthesizers, and the accessor synthesizer.  It either succeeds with a
//! complete [`Expansion`] — everything the generated surface consists of —
//! or fails with one diagnostic and produces nothing.

use vstd::prelude::*;
use vstd::string::StringExecFns;

use crate::access::{
    accessors_match, heads_plan_matches, lemma_no_unboxed_borrowed, make_into_heads,
    make_with_all_function, make_with_functions, with_all_matches, Accessor, HeadsPlan,
    WithAllPlan,
};
use crate::borrows::BorrowToken;
use crate::construct::{
    create_builder_and_constructor, create_try_builder_and_constructor, first_bad_field_from,
    first_unboxed_from, plan_matches, try_plan_matches, ConstructorPlan, TryConstructorPlan,
};
use crate::diag::{Diagnostic, ErrorKind};
use crate::field::{
    fields_wf, lemma_borrowed_is_targeted, targets_declared_earlier, StructFieldInfo,
};
use crate::layout::{
    analysis_result_matches, analyze_run, create_actual_struct, rejection_diag, FieldAnalysis,
    FieldsShape, StorageField,
};

verus! {

/// The configuration flags the engine recognizes.
#[derive(Clone, Copy, PartialEq, Eq, Structural, Debug)]
pub struct Options {
    /// Compatibility mode: dependency targets must be `Box`es, whose
    /// argument is then the exposed content type.
    pub do_chain_hack: bool,
    /// Omit explanatory text from the generated output.
    pub do_no_doc: bool,
}

/// The option parser's state between tokens.
pub struct OptionsState {
    pub do_chain_hack: bool,
    pub do_no_doc: bool,
    pub expecting_comma: bool,
}

/// The outcome of consuming a prefix of the option tokens.
pub enum OptionsOutcome {
    Going(OptionsState),
    Failed { kind: ErrorKind, token: int },
}

/// What one option token does to the state, or the failure it causes.
pub open spec fn options_step(st: OptionsState, t: BorrowToken, idx: int) -> OptionsOutcome {
    match t {
        BorrowToken::Ident(id) => {
            if st.expecting_comma {
                OptionsOutcome::Failed { kind: ErrorKind::OptionExpectedComma, token: idx }
            } else if id@ == "chain_hack"@ {
                OptionsOutcome::Going(
                    OptionsState { do_chain_hack: true, expecting_comma: true, ..st },
                )
            } else if id@ == "no_doc"@ {
                OptionsOutcome::Going(
                    OptionsState { do_no_doc: true, expecting_comma: true, ..st },
                )
            } else {
                OptionsOutcome::Failed { kind: ErrorKind::OptionUnknown, token: idx }
            }
        },
        BorrowToken::Punct(c) => {
            if !st.expecting_comma {
                OptionsOutcome::Failed { kind: ErrorKind::OptionUnexpectedPunct, token: idx }
            } else if c != ',' {
                OptionsOutcome::Failed { kind: ErrorKind::OptionUnknownPunct, token: idx }
            } else {
                OptionsOutcome::Going(OptionsState { expecting_comma: false, ..st })
            }
        },
        BorrowToken::Other => OptionsOutcome::Failed {
            kind: ErrorKind::OptionUnknownSyntax,
            token: idx,
        },
    }
}

/// The state (or first failure) after the first `n` option tokens.
pub open spec fn options_run(st0: OptionsState, toks: Seq<BorrowToken>, n: int) -> OptionsOutcome
    decreases n,
{
    if n <= 0 {
        OptionsOutcome::Going(st0)
    } else {
        match options_run(st0, toks, n - 1) {
            OptionsOutcome::Going(st) => options_step(st, toks[n - 1], n - 1),
            failed => failed,
        }
    }
}

/// Once option parsing has failed, more tokens change nothing.
pub proof fn lemma_options_sticky(st0: OptionsState, toks: Seq<BorrowToken>, k: int, m: int)
    requires
        0 <= k <= m,
        options_run(st0, toks, k) is Failed,
    ensures
        options_run(st0, toks, m) == options_run(st0, toks, k),
    decreases m - k,
{
    if m > k {
        lemma_options_sticky(st0, toks, k, m - 1);
    }
}

/// The option parser's initial state: nothing set, no comma expected.
pub open spec fn options_init() -> OptionsState {
    OptionsState { do_chain_hack: false, do_no_doc: false, expecting_comma: false }
}

/// Parses the engine's configuration flags: a comma-separated list of the
/// identifiers `chain_hack` and `no_doc`, exactly as [`options_run`] folds
/// them; anything else fails at the offending token.
pub fn parse_options(tokens: &Vec<BorrowToken>) -> (result: Result<Options, Diagnostic>)
    ensures
        ({
            match options_run(options_init(), tokens@, tokens@.len() as int) {
                OptionsOutcome::Going(st) => result == Result::<Options, Diagnostic>::Ok(
                    Options { do_chain_hack: st.do_chain_hack, do_no_doc: st.do_no_doc },
                ),
                OptionsOutcome::Failed { kind, token } => result == Result::<
                    Options,
                    Diagnostic,
                >::Err(
                    Diagnostic {
                        kind: kind,
                        field: Option::None,
                        token: Option::Some(token as usize),
                    },
                ),
            }
        }),
{
    let mut do_chain_hack = false;
    let mut do_no_doc = false;
    let mut expecting_comma = false;
    let mut i: usize = 0;
    #[verifier::loop_isolation(false)]
    while i < tokens.len()
        invariant
            i <= tokens@.len(),
            options_run(options_init(), tokens@, i as int) == OptionsOutcome::Going(
                OptionsState { do_chain_hack, do_no_doc, expecting_comma },
            ),
        decreases tokens@.len() - i,
    {
        match &tokens[i] {
            BorrowToken::Ident(id) => {
                if expecting_comma {
                    proof {
                        lemma_options_sticky(
                            options_init(),
                            tokens@,
                            i + 1,
                            tokens@.len() as int,
                        );
                    }
                    return Result::Err(Diagnostic::at_token(ErrorKind::OptionExpectedComma, i));
                }
                if *id == "chain_hack".to_owned() {
                    do_chain_hack = true;
                    expecting_comma = true;
                } else if *id == "no_doc".to_owned() {
                    do_no_doc = true;
                    expecting_comma = true;
                } else {
                    proof {
                        lemma_options_sticky(
                            options_init(),
                            tokens@,
                            i + 1,
                            tokens@.len() as int,
                        );
                    }
                    return Result::Err(Diagnostic::at_token(ErrorKind::OptionUnknown, i));
                }
            },
            BorrowToken::Punct(c) => {
                if !expecting_comma {
                    proof {
                        lemma_options_sticky(
                            options_init(),
                            tokens@,
                            i + 1,
                            tokens@.len() as int,
                        );
                    }
                    return Result::Err(
                        Diagnostic::at_token(ErrorKind::OptionUnexpectedPunct, i),
                    );
                }
                if *c != ',' {
                    proof {
                        lemma_options_sticky(
                            options_init(),
                            tokens@,
                            i + 1,
                            tokens@.len() as int,
                        );
                    }
                    return Result::Err(Diagnostic::at_token(ErrorKind::OptionUnknownPunct, i));
                }
                expecting_comma = false;
            },
            BorrowToken::Other => {
                proof {
                    lemma_options_sticky(options_init(), tokens@, i + 1, tokens@.len() as int);
                }
                return Result::Err(Diagnostic::at_token(ErrorKind::OptionUnknownSyntax, i));
            },
        }
        i = i + 1;
    }
    Result::Ok(Options { do_chain_hack, do_no_doc })
}

/// The kind of one generic parameter of the schema.
#[derive(Clone, Copy, PartialEq, Eq, Structural, Debug)]
pub enum GenericParamKind {
    Type,
    Lifetime,
    Const,
}

/// One generic parameter of the schema: its kind and its bare name (the
/// identifier, without any bounds or the lifetime mark).
#[derive(Debug)]
pub struct GenericParamInfo {
    pub kind: GenericParamKind,
    pub name: String,
}

/// Takes the generic parameters of the schema and turns them into the
/// argument list that every generated item applies its types with: one name
/// per parameter, in order.  Const parameters are not supported.
pub fn make_generic_arguments(generic_params: &Vec<GenericParamInfo>) -> (r: Vec<String>)
    requires
        forall|k: int|
            0 <= k < generic_params@.len() ==> !((#[trigger] generic_params@[k]).kind is Const),
    ensures
        r@.len() == generic_params@.len(),
        forall|k: int|
            0 <= k < r@.len() ==> (#[trigger] r@[k])@ == generic_params@[k].name@,
{
    let mut arguments: Vec<String> = Vec::new();
    let mut i: usize = 0;
    #[verifier::loop_isolation(false)]
    while i < generic_params.len()
        invariant
            i <= generic_params@.len(),
            arguments@.len() == i,
            forall|k: int|
                0 <= k < i ==> (#[trigger] arguments@[k])@ == generic_params@[k].name@,
        decreases generic_params@.len() - i,
    {
        arguments.push(generic_params[i].name.clone());
        i = i + 1;
    }
    arguments
}

/// One declared schema: the struct's name, its generic parameters, and its
/// fields with their raw dependency declarations.
#[derive(Debug)]
pub struct StructDef {
    pub name: String,
    pub generics: Vec<GenericParamInfo>,
    pub shape: FieldsShape,
}

/// Everything the engine generates for one schema: the derived names, the
/// classified fields and planned storage, both constructor plans, the
/// per-field accessors, the combined accessors, and head extraction.
#[derive(Debug)]
pub struct Expansion {
    /// The module holding the generated items: the struct's name in snake
    /// case with a fixed prefix.
    pub mod_name: String,
    pub struct_name: String,
    pub builder_struct_name: String,
    pub try_builder_struct_name: String,
    /// The schema's generic parameters as an argument list.
    pub generic_args: Vec<String>,
    pub fields: Vec<StructFieldInfo>,
    pub storage: Vec<StorageField>,
    pub constructor: ConstructorPlan,
    pub try_constructor: TryConstructorPlan,
    pub accessors: Vec<Accessor>,
    pub with_all: WithAllPlan,
    pub heads: HeadsPlan,
}

/// Whether, in compatibility mode, some declared dependency targets a field
/// whose declared type is not a `Box` — the one type-shape error.
pub open spec fn chain_trouble(fields: Seq<StructFieldInfo>) -> bool {
    exists|i: int, k: int|
        #![trigger fields[i].borrows@[k]]
        0 <= i < fields.len() && 0 <= k < fields[i].borrows@.len() && fields[fields[i].borrows@[
            k].index as int].typ@.box_arg is None
}

/// If no field is rejected by the compatibility check, no dependency
/// targets an unboxed field.
proof fn lemma_no_bad_no_trouble(fields: Seq<StructFieldInfo>, j: int)
    requires
        0 <= j,
        targets_declared_earlier(fields),
        first_bad_field_from(fields, j) is None,
    ensures
        forall|i: int, k: int|
            #![trigger fields[i].borrows@[k]]
            j <= i < fields.len() && 0 <= k < fields[i].borrows@.len() ==> !(fields[fields[
                i].borrows@[k].index as int].typ@.box_arg is None),
    decreases fields.len() - j,
{
    if j < fields.len() {
        lemma_no_bad_no_trouble(fields, j + 1);
        lemma_unboxed_none_all(fields, fields[j].borrows@, 0);
    }
}

/// If the scan finds no unboxed target, every target is boxed.
proof fn lemma_unboxed_none_all(
    fields: Seq<StructFieldInfo>,
    edges: Seq<crate::field::BorrowRequest>,
    j: int,
)
    requires
        0 <= j,
        first_unboxed_from(fields, edges, j) is None,
    ensures
        forall|k: int|
            j <= k < edges.len() ==> !((#[trigger] fields[edges[k].index as int].typ@.box_arg)
                is None),
    decreases edges.len() - j,
{
    if j < edges.len() {
        lemma_unboxed_none_all(fields, edges, j + 1);
    }
}

/// If the compatibility check rejected some field, some dependency targets
/// an unboxed field.
proof fn lemma_bad_field_trouble(fields: Seq<StructFieldInfo>, j: int)
    requires
        0 <= j,
        first_bad_field_from(fields, j) is Some,
    ensures
        chain_trouble(fields),
    decreases fields.len() - j,
{
    if j < fields.len() {
        if first_unboxed_from(fields, fields[j].borrows@, 0) is Some {
            lemma_unboxed_some_trouble(fields, j, fields[j].borrows@, 0);
        } else {
            lemma_bad_field_trouble(fields, j + 1);
        }
    }
}

/// A found unboxed target is a witness of chain trouble.
proof fn lemma_unboxed_some_trouble(
    fields: Seq<StructFieldInfo>,
    i: int,
    edges: Seq<crate::field::BorrowRequest>,
    j: int,
)
    requires
        0 <= i < fields.len(),
        0 <= j,
        edges == fields[i].borrows@,
        first_unboxed_from(fields, edges, j) is Some,
    ensures
        chain_trouble(fields),
    decreases edges.len() - j,
{
    if j < edges.len() {
        if fields[edges[j].index as int].typ@.box_arg is None {
            assert(fields[i].borrows@[j].index == edges[j].index);
        } else {
            lemma_unboxed_some_trouble(fields, i, edges, j + 1);
        }
    }
}

/// In a consistent field list with no chain trouble, every `Borrowed`
/// field's type is a `Box`; the accessor synthesizers then cannot fail.
proof fn lemma_no_trouble_borrowed_boxed(fields: Seq<StructFieldInfo>)
    requires
        fields_wf(fields),
        !chain_trouble(fields),
    ensures
        forall|m: int|
            0 <= m < fields.len() ==> !((#[trigger] fields[m]).field_type is Borrowed
                && fields[m].typ@.box_arg is None),
{
    assert forall|m: int|
        0 <= m < fields.len() implies !((#[trigger] fields[m]).field_type is Borrowed
        && fields[m].typ@.box_arg is None) by {
        if fields[m].field_type is Borrowed && fields[m].typ@.box_arg is None {
            lemma_borrowed_is_targeted(fields, m);
            let (i, k) = choose|i: int, k: int|
                #![trigger fields[i].borrows@[k]]
                0 <= i < fields.len() && 0 <= k < fields[i].borrows@.len() && fields[i].borrows@[
                    k].index == m;
            assert(fields[fields[i].borrows@[k].index as int].typ@.box_arg is None);
        }
    }
}

/// Runs the whole transformation over one declared schema.
///
/// Succeeds exactly on a named-field schema whose every dependency
/// declaration parses, with at least two fields, at least one declared
/// dependency, and — in compatibility mode — no dependency on an unboxed
/// field.  On success the expansion holds the full planned surface, each
/// part matching the classified fields; on failure, one diagnostic and
/// nothing else.
pub fn self_referencing_impl(def: StructDef, options: Options) -> (result: Result<
    Expansion,
    Diagnostic,
>)
    requires
        forall|k: int|
            0 <= k < def.generics@.len() ==> !((#[trigger] def.generics@[k]).kind is Const),
    ensures
        ({
            match def.shape {
                FieldsShape::Unnamed => result == Result::<Expansion, Diagnostic>::Err(
                    Diagnostic {
                        kind: ErrorKind::TupleStruct,
                        field: Option::None,
                        token: Option::None,
                    },
                ),
                FieldsShape::Unit => result == Result::<Expansion, Diagnostic>::Err(
                    Diagnostic {
                        kind: ErrorKind::UnitStruct,
                        field: Option::None,
                        token: Option::None,
                    },
                ),
                FieldsShape::Named(raws) => match analyze_run(raws@, raws@.len() as int) {
                    FieldAnalysis::Rejected { field, kind, token } => result == Result::<
                        Expansion,
                        Diagnostic,
                    >::Err(rejection_diag(field, kind, token)),
                    FieldAnalysis::Accepted { roles, edges } => {
                        if raws@.len() < 2 {
                            result == Result::<Expansion, Diagnostic>::Err(
                                Diagnostic {
                                    kind: ErrorKind::TooFewFields,
                                    field: Option::None,
                                    token: Option::None,
                                },
                            )
                        } else if forall|i: int|
                            0 <= i < edges.len() ==> (#[trigger] edges[i]).len() == 0 {
                            result == Result::<Expansion, Diagnostic>::Err(
                                Diagnostic {
                                    kind: ErrorKind::NoSelfReference,
                                    field: Option::Some(0usize),
                                    token: Option::None,
                                },
                            )
                        } else {
                            match result {
                                Result::Ok(e) => {
                                    &&& analysis_result_matches(raws@, e.fields@, e.storage@)
                                    &&& !(options.do_chain_hack && chain_trouble(e.fields@))
                                    &&& e.struct_name@ == def.name@
                                    &&& e.mod_name@ == "ouroboros_impl_"@
                                        + crate::casing::snake_case_of(def.name@)
                                    &&& e.builder_struct_name@ == def.name@ + "Builder"@
                                    &&& e.try_builder_struct_name@ == def.name@ + "TryBuilder"@
                                    &&& e.generic_args@.len() == def.generics@.len()
                                    &&& forall|k: int|
                                        0 <= k < e.generic_args@.len() ==> (
                                        #[trigger] e.generic_args@[k])@ == def.generics@[k].name@
                                    &&& plan_matches(
                                        e.fields@,
                                        e.constructor,
                                        options.do_chain_hack,
                                    )
                                    &&& try_plan_matches(
                                        e.fields@,
                                        e.try_constructor,
                                        options.do_chain_hack,
                                    )
                                    &&& accessors_match(
                                        e.fields@,
                                        e.accessors@,
                                        options.do_chain_hack,
                                    )
                                    &&& with_all_matches(
                                        e.fields@,
                                        e.with_all,
                                        options.do_chain_hack,
                                    )
                                    &&& heads_plan_matches(e.fields@, e.heads)
                                },
                                Result::Err(d) => {
                                    &&& options.do_chain_hack
                                    &&& d.kind == ErrorKind::NotABox
                                },
                            }
                        }
                    },
                },
            }
        }),
{
    let StructDef { name: struct_name, generics, shape } = def;
    let mod_name = "ouroboros_impl_".to_owned().concat(
        crate::casing::to_snake_case(struct_name.as_str()).as_str(),
    );
    let builder_struct_name = struct_name.clone().concat("Builder");
    let try_builder_struct_name = struct_name.clone().concat("TryBuilder");
    let generic_args = make_generic_arguments(&generics);

    let actual = match create_actual_struct(shape) {
        Result::Ok(a) => a,
        Result::Err(d) => {
            return Result::Err(d);
        },
    };

    let constructor = match create_builder_and_constructor(
        &actual.fields,
        options.do_chain_hack,
    ) {
        Result::Ok(p) => p,
        Result::Err(d) => {
            proof {
                lemma_bad_field_trouble(actual.fields@, 0);
            }
            return Result::Err(d);
        },
    };
    let try_constructor = match create_try_builder_and_constructor(
        &actual.fields,
        options.do_chain_hack,
    ) {
        Result::Ok(p) => p,
        Result::Err(d) => {
            proof {
                lemma_bad_field_trouble(actual.fields@, 0);
            }
            return Result::Err(d);
        },
    };
    proof {
        if options.do_chain_hack {
            assert(first_bad_field_from(actual.fields@, 0) is None);
            lemma_no_bad_no_trouble(actual.fields@, 0);
            assert(!chain_trouble(actual.fields@));
            lemma_no_trouble_borrowed_boxed(actual.fields@);
            lemma_no_unboxed_borrowed(actual.fields@, 0);
            crate::access::lemma_last_unboxed_none(actual.fields@, actual.fields@.len() - 1);
        }
    }
    let accessors = match make_with_functions(&actual.fields, options.do_chain_hack) {
        Result::Ok(a) => a,
        Result::Err(d) => {
            proof {
                assert(false);
            }
            return Result::Err(d);
        },
    };
    let with_all = match make_with_all_function(&actual.fields, options.do_chain_hack) {
        Result::Ok(p) => p,
        Result::Err(d) => {
            proof {
                assert(false);
            }
            return Result::Err(d);
        },
    };
    let heads = make_into_heads(&actual.fields);

    Result::Ok(
        Expansion {
            mod_name,
            struct_name,
            builder_struct_name,
            try_builder_struct_name,
            generic_args,
            fields: actual.fields,
            storage: actual.storage,
            constructor,
            try_constructor,
            accessors,
            with_all,
            heads,
        },
    )
}

} // verus!
