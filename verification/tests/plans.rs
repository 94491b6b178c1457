//! The constructor, accessor, and head-extraction planners, and the whole
//! transformation, on concrete schemas.

use ouroboros::access::{
    make_into_heads, make_with_all_function, make_with_functions, AccessorKind, HeadStep,
};
use ouroboros::borrows::{BorrowToken, OuterToken};
use ouroboros::construct::{
    create_builder_and_constructor, create_try_builder_and_constructor, ArgType, ContentType,
    HeadRecovery,
};
use ouroboros::diag::ErrorKind;
use ouroboros::expand::{
    self_referencing_impl, GenericParamInfo, GenericParamKind, Options, StructDef,
};
use ouroboros::field::{FieldTy, FieldType, StructFieldInfo};
use ouroboros::layout::{create_actual_struct, FieldsShape, RawField};
use ouroboros::token::TokenNode;

fn ident(s: &str) -> BorrowToken {
    BorrowToken::Ident(s.to_string())
}

fn comma() -> BorrowToken {
    BorrowToken::Punct(',')
}

fn attr(tokens: Vec<BorrowToken>) -> Vec<OuterToken> {
    vec![OuterToken::Group(tokens)]
}

fn plain_ty() -> FieldTy {
    FieldTy { tokens: vec![TokenNode::Ident("i32".to_string())], box_arg: None }
}

fn boxed_ty() -> FieldTy {
    FieldTy {
        tokens: vec![
            TokenNode::Ident("Box".to_string()),
            TokenNode::Punct('<'),
            TokenNode::Ident("i32".to_string()),
            TokenNode::Punct('>'),
        ],
        box_arg: Some(vec![TokenNode::Ident("i32".to_string())]),
    }
}

fn raw(name: &str) -> RawField {
    RawField { name: name.to_string(), typ: plain_ty(), borrows_attr: None }
}

fn raw_boxed(name: &str) -> RawField {
    RawField { name: name.to_string(), typ: boxed_ty(), borrows_attr: None }
}

fn raw_borrowing(name: &str, tokens: Vec<BorrowToken>) -> RawField {
    RawField { name: name.to_string(), typ: plain_ty(), borrows_attr: Some(attr(tokens)) }
}

/// The classified fields of `{a: head, b: head, c: depends-on(a shared, b exclusive)}`.
fn classified_three() -> Vec<StructFieldInfo> {
    let shape = FieldsShape::Named(vec![
        raw("a"),
        raw("b"),
        raw_borrowing("c", vec![ident("a"), comma(), ident("mut"), ident("b")]),
    ]);
    create_actual_struct(shape).unwrap().fields
}

#[test]
fn constructor_params_follow_field_kinds() {
    let fields = classified_three();
    let plan = create_builder_and_constructor(&fields, false).unwrap();
    assert_eq!(plan.params.len(), 3);
    assert_eq!(plan.params[0].name, "a");
    assert!(matches!(plan.params[0].arg, ArgType::Plain));
    assert_eq!(plan.params[0].generic, None);
    assert_eq!(plan.params[2].name, "c_builder");
    match &plan.params[2].arg {
        ArgType::TraitBound(ps) => {
            assert_eq!(ps.len(), 2);
            assert!(!ps[0].mutable);
            assert_eq!(ps[0].target, 0);
            assert!(ps[1].mutable);
            assert_eq!(ps[1].target, 1);
            assert_eq!(ps[0].content, ContentType::DerefTarget(plain_ty().tokens));
        },
        ArgType::Plain => panic!("dependent field must take a one-shot function"),
    }
}

#[test]
fn builder_type_parameter_uses_class_case() {
    let shape = FieldsShape::Named(vec![
        raw("first_value"),
        raw_borrowing("my_field", vec![ident("first_value")]),
    ]);
    let fields = create_actual_struct(shape).unwrap().fields;
    let plan = create_builder_and_constructor(&fields, false).unwrap();
    assert_eq!(plan.params[1].generic.as_deref(), Some("MyFieldBuilder_"));
}

#[test]
fn builder_fields_mirror_constructor_params() {
    // building through the builder forwards exactly the constructor's
    // parameters, in order
    let fields = classified_three();
    let plan = create_builder_and_constructor(&fields, false).unwrap();
    let names: Vec<&str> = plan.params.iter().map(|p| p.name.as_str()).collect();
    let builder: Vec<&str> = plan.builder_fields.iter().map(|s| s.as_str()).collect();
    assert_eq!(builder, names);
    assert_eq!(builder, vec!["a", "b", "c_builder"]);

    let try_plan = create_try_builder_and_constructor(&fields, false).unwrap();
    let try_names: Vec<&str> = try_plan.params.iter().map(|p| p.name.as_str()).collect();
    let try_builder: Vec<&str> = try_plan.builder_fields.iter().map(|s| s.as_str()).collect();
    assert_eq!(try_builder, try_names);
    assert_eq!(try_builder, vec!["a", "b", "c_builder"]);
}

#[test]
fn materialization_references_follow_roles() {
    let fields = classified_three();
    let plan = create_builder_and_constructor(&fields, false).unwrap();
    // a is shared-borrowed, b exclusively, c not at all
    assert_eq!(plan.inits[0].make_ref, Some(false));
    assert_eq!(plan.inits[1].make_ref, Some(true));
    assert_eq!(plan.inits[2].make_ref, None);
    // only c invokes a one-shot function, on its declared targets in order
    assert_eq!(plan.inits[0].invoke, None);
    assert_eq!(plan.inits[2].invoke, Some(vec![0, 1]));
}

#[test]
fn compatibility_mode_requires_boxed_targets() {
    let shape = FieldsShape::Named(vec![
        raw("a"),
        raw_borrowing("b", vec![ident("a")]),
    ]);
    let fields = create_actual_struct(shape).unwrap().fields;
    let d = create_builder_and_constructor(&fields, true).unwrap_err();
    assert_eq!(d.kind, ErrorKind::NotABox);
    assert_eq!(d.field, Some(0));
}

#[test]
fn compatibility_mode_exposes_box_argument() {
    let shape = FieldsShape::Named(vec![
        raw_boxed("a"),
        raw_borrowing("b", vec![ident("a")]),
    ]);
    let fields = create_actual_struct(shape).unwrap().fields;
    let plan = create_builder_and_constructor(&fields, true).unwrap();
    match &plan.params[1].arg {
        ArgType::TraitBound(ps) => {
            assert_eq!(
                ps[0].content,
                ContentType::BoxArg(vec![TokenNode::Ident("i32".to_string())])
            );
        },
        ArgType::Plain => panic!("dependent field must take a one-shot function"),
    }
}

#[test]
fn failed_construction_recovers_heads_and_releases_intermediates() {
    // schema {a: head, b: depends-on(a), c: head, d: depends-on(c)}
    let shape = FieldsShape::Named(vec![
        raw("a"),
        raw_borrowing("b", vec![ident("a")]),
        raw("c"),
        raw_borrowing("d", vec![ident("c")]),
    ]);
    let fields = create_actual_struct(shape).unwrap().fields;
    let plan = create_try_builder_and_constructor(&fields, false).unwrap();
    // a failure while building b: head a is already in storage, head c is
    // still a parameter; nothing dependent was materialized before b
    assert_eq!(plan.inits[1].recovered, Some(vec![
        HeadRecovery { field: 0, from_storage: true },
        HeadRecovery { field: 2, from_storage: false },
    ]));
    assert_eq!(plan.inits[1].released, Some(vec![]));
    // a failure while building d: both heads are in storage, and b — the
    // one intermediate dependent field — is released exactly once
    assert_eq!(plan.inits[3].recovered, Some(vec![
        HeadRecovery { field: 0, from_storage: true },
        HeadRecovery { field: 2, from_storage: true },
    ]));
    assert_eq!(plan.inits[3].released, Some(vec![1]));
    // plain fields plan no failure path of their own
    assert_eq!(plan.inits[0].recovered, None);
    assert_eq!(plan.inits[0].released, None);
}

#[test]
fn accessors_follow_roles() {
    let fields = classified_three();
    let acc = make_with_functions(&fields, false).unwrap();
    // a (shared): one content read; b (exclusive): nothing; c (tail): read
    // and write
    assert_eq!(acc.len(), 3);
    assert_eq!(acc[0].field, 0);
    assert_eq!(acc[0].name, "with_a_contents");
    assert!(matches!(acc[0].kind, AccessorKind::ReadContents(_)));
    assert_eq!(acc[1].field, 2);
    assert_eq!(acc[1].name, "with_c");
    assert_eq!(acc[1].kind, AccessorKind::Read);
    assert_eq!(acc[2].field, 2);
    assert_eq!(acc[2].name, "with_c_mut");
    assert_eq!(acc[2].kind, AccessorKind::Write);
    assert!(acc.iter().all(|a| a.field != 1));
}

#[test]
fn combined_borrows_follow_roles() {
    let fields = classified_three();
    let plan = make_with_all_function(&fields, false).unwrap();
    // reverse declaration order: c (tail, by name), a (shared, contents)
    assert_eq!(plan.fields.len(), 2);
    assert_eq!(plan.fields[0].field, 2);
    assert_eq!(plan.fields[0].name, "c");
    assert!(plan.fields[0].contents.is_none());
    assert_eq!(plan.fields[1].field, 0);
    assert_eq!(plan.fields[1].name, "a_contents");
    assert!(plan.fields[1].contents.is_some());
    // mutable access: tail fields only
    assert_eq!(plan.mut_fields.len(), 1);
    assert_eq!(plan.mut_fields[0].field, 2);
    assert_eq!(plan.mut_fields[0].name, "c");
}

#[test]
fn head_extraction_keeps_exactly_the_heads() {
    let fields = classified_three();
    let plan = make_into_heads(&fields);
    // reverse declaration order: c is dependent, b and a are heads
    assert_eq!(plan.steps, vec![
        HeadStep::Discard(2),
        HeadStep::Keep(1),
        HeadStep::Keep(0),
    ]);
    assert_eq!(plan.heads, vec![1, 0]);
}

#[test]
fn whole_transformation_produces_the_planned_surface() {
    let def = StructDef {
        name: "MyStruct".to_string(),
        generics: vec![GenericParamInfo { kind: GenericParamKind::Type, name: "T".to_string() }],
        shape: FieldsShape::Named(vec![
            raw("a"),
            raw("b"),
            raw_borrowing("c", vec![ident("a"), comma(), ident("mut"), ident("b")]),
        ]),
    };
    let e = self_referencing_impl(def, Options { do_chain_hack: false, do_no_doc: false })
        .unwrap();
    assert_eq!(e.struct_name, "MyStruct");
    assert_eq!(e.mod_name, "ouroboros_impl_my_struct");
    assert_eq!(e.builder_struct_name, "MyStructBuilder");
    assert_eq!(e.try_builder_struct_name, "MyStructTryBuilder");
    assert_eq!(e.generic_args, vec!["T".to_string()]);
    assert_eq!(e.fields.len(), 3);
    assert_eq!(e.storage.len(), 3);
    assert_eq!(e.storage[0].name, "c");
    assert_eq!(e.constructor.params.len(), 3);
    assert_eq!(e.try_constructor.params.len(), 3);
    assert_eq!(e.accessors.len(), 3);
    assert_eq!(e.heads.heads, vec![1, 0]);
}

#[test]
fn whole_transformation_propagates_rejections() {
    let def = StructDef {
        name: "Broken".to_string(),
        generics: vec![],
        shape: FieldsShape::Named(vec![
            raw("a"),
            raw_borrowing("b", vec![ident("mut"), ident("a")]),
            raw_borrowing("c", vec![ident("mut"), ident("a")]),
        ]),
    };
    let d = self_referencing_impl(def, Options { do_chain_hack: false, do_no_doc: false })
        .unwrap_err();
    assert_eq!(d.kind, ErrorKind::DoubleMutBorrow);
    assert_eq!(d.field, Some(2));
}

#[test]
fn generic_lifetimes_are_forwarded_as_arguments() {
    let def = StructDef {
        name: "WithLifetime".to_string(),
        generics: vec![
            GenericParamInfo { kind: GenericParamKind::Lifetime, name: "a".to_string() },
            GenericParamInfo { kind: GenericParamKind::Type, name: "T".to_string() },
        ],
        shape: FieldsShape::Named(vec![raw("x"), raw_borrowing("y", vec![ident("x")])]),
    };
    let e = self_referencing_impl(def, Options { do_chain_hack: false, do_no_doc: false })
        .unwrap();
    assert_eq!(e.generic_args, vec!["a".to_string(), "T".to_string()]);
}
