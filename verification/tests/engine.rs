//! The dependency parser, the classifier, and the layout planner, on
//! concrete schemas.

use ouroboros::borrows::{handle_borrows_attr, BorrowToken, OuterToken};
use ouroboros::diag::ErrorKind;
use ouroboros::expand::parse_options;
use ouroboros::field::{BorrowRequest, FieldTy, FieldType, StructFieldInfo};
use ouroboros::layout::{create_actual_struct, FieldsShape, RawField};
use ouroboros::token::{replace_this_with_static, TokenNode};

fn ident(s: &str) -> BorrowToken {
    BorrowToken::Ident(s.to_string())
}

fn comma() -> BorrowToken {
    BorrowToken::Punct(',')
}

fn attr(tokens: Vec<BorrowToken>) -> Vec<OuterToken> {
    vec![OuterToken::Group(tokens)]
}

fn plain_ty() -> FieldTy {
    FieldTy { tokens: vec![TokenNode::Ident("i32".to_string())], box_arg: None }
}

fn raw(name: &str) -> RawField {
    RawField { name: name.to_string(), typ: plain_ty(), borrows_attr: None }
}

fn raw_borrowing(name: &str, tokens: Vec<BorrowToken>) -> RawField {
    RawField { name: name.to_string(), typ: plain_ty(), borrows_attr: Some(attr(tokens)) }
}

fn bare_field(name: &str) -> StructFieldInfo {
    StructFieldInfo {
        name: name.to_string(),
        typ: plain_ty(),
        field_type: FieldType::Tail,
        borrows: vec![],
    }
}

#[test]
fn is_tail_only_for_tail() {
    assert!(FieldType::Tail.is_tail());
    assert!(!FieldType::Borrowed.is_tail());
    assert!(!FieldType::BorrowedMut.is_tail());
}

#[test]
fn builder_and_ref_names_derive_from_field_name() {
    let f = bare_field("data");
    assert_eq!(f.builder_name(), "data_builder");
    assert_eq!(f.illegal_ref_name(), "data_illegal_static_reference");
}

#[test]
fn parses_shared_then_exclusive_borrow() {
    let mut fields = vec![bare_field("a"), bare_field("b")];
    let mut borrows = vec![];
    let r = handle_borrows_attr(
        &mut fields,
        &attr(vec![ident("a"), comma(), ident("mut"), ident("b")]),
        &mut borrows,
    );
    assert!(r.is_ok());
    assert_eq!(borrows, vec![
        BorrowRequest { index: 0, mutable: false },
        BorrowRequest { index: 1, mutable: true },
    ]);
    assert_eq!(fields[0].field_type, FieldType::Borrowed);
    assert_eq!(fields[1].field_type, FieldType::BorrowedMut);
}

#[test]
fn repeated_shared_borrow_is_allowed() {
    let mut fields = vec![bare_field("a")];
    let mut borrows = vec![];
    let r = handle_borrows_attr(
        &mut fields,
        &attr(vec![ident("a"), comma(), ident("a")]),
        &mut borrows,
    );
    assert!(r.is_ok());
    assert_eq!(borrows.len(), 2);
    assert_eq!(fields[0].field_type, FieldType::Borrowed);
}

#[test]
fn empty_attr_stream_is_rejected() {
    let mut fields = vec![bare_field("a")];
    let mut borrows = vec![];
    let d = handle_borrows_attr(&mut fields, &vec![], &mut borrows).unwrap_err();
    assert_eq!(d.kind, ErrorKind::BorrowsSyntax);
    assert_eq!(d.token, None);
}

#[test]
fn non_group_attr_stream_is_rejected() {
    let mut fields = vec![bare_field("a")];
    let mut borrows = vec![];
    let d = handle_borrows_attr(&mut fields, &vec![OuterToken::Leaf], &mut borrows).unwrap_err();
    assert_eq!(d.kind, ErrorKind::BorrowsSyntax);
}

#[test]
fn missing_comma_is_rejected_at_second_ident() {
    let mut fields = vec![bare_field("a"), bare_field("b")];
    let mut borrows = vec![];
    let d = handle_borrows_attr(&mut fields, &attr(vec![ident("a"), ident("b")]), &mut borrows)
        .unwrap_err();
    assert_eq!(d.kind, ErrorKind::ExpectedComma);
    assert_eq!(d.token, Some(1));
}

#[test]
fn double_mut_marker_is_rejected() {
    let mut fields = vec![bare_field("a")];
    let mut borrows = vec![];
    let d = handle_borrows_attr(
        &mut fields,
        &attr(vec![ident("mut"), ident("mut")]),
        &mut borrows,
    )
    .unwrap_err();
    assert_eq!(d.kind, ErrorKind::DoubleMut);
    assert_eq!(d.token, Some(1));
}

#[test]
fn unknown_name_is_rejected() {
    let mut fields = vec![bare_field("a")];
    let mut borrows = vec![];
    let d = handle_borrows_attr(&mut fields, &attr(vec![ident("z")]), &mut borrows).unwrap_err();
    assert_eq!(d.kind, ErrorKind::UnknownField);
    assert_eq!(d.token, Some(0));
}

#[test]
fn extra_comma_is_rejected() {
    let mut fields = vec![bare_field("a")];
    let mut borrows = vec![];
    let d = handle_borrows_attr(&mut fields, &attr(vec![comma()]), &mut borrows).unwrap_err();
    assert_eq!(d.kind, ErrorKind::ExtraComma);
    assert_eq!(d.token, Some(0));
}

#[test]
fn stray_punctuation_is_rejected() {
    let mut fields = vec![bare_field("a")];
    let mut borrows = vec![];
    let d = handle_borrows_attr(
        &mut fields,
        &attr(vec![BorrowToken::Punct(';')]),
        &mut borrows,
    )
    .unwrap_err();
    assert_eq!(d.kind, ErrorKind::UnexpectedPunct);
}

#[test]
fn non_ident_token_is_rejected() {
    let mut fields = vec![bare_field("a")];
    let mut borrows = vec![];
    let d = handle_borrows_attr(&mut fields, &attr(vec![BorrowToken::Other]), &mut borrows)
        .unwrap_err();
    assert_eq!(d.kind, ErrorKind::UnexpectedToken);
}

#[test]
fn classifies_shared_exclusive_and_tail() {
    // schema {a: head, b: head, c: depends-on(a shared, b exclusive)}
    let shape = FieldsShape::Named(vec![
        raw("a"),
        raw("b"),
        raw_borrowing("c", vec![ident("a"), comma(), ident("mut"), ident("b")]),
    ]);
    let a = create_actual_struct(shape).unwrap();
    assert_eq!(a.fields[0].field_type, FieldType::Borrowed);
    assert_eq!(a.fields[1].field_type, FieldType::BorrowedMut);
    assert_eq!(a.fields[2].field_type, FieldType::Tail);
    assert_eq!(a.fields[2].borrows, vec![
        BorrowRequest { index: 0, mutable: false },
        BorrowRequest { index: 1, mutable: true },
    ]);
}

#[test]
fn double_exclusive_borrow_across_fields_is_rejected() {
    // schema {a: head, b: depends-on(a exclusive), c: depends-on(a exclusive)}
    let shape = FieldsShape::Named(vec![
        raw("a"),
        raw_borrowing("b", vec![ident("mut"), ident("a")]),
        raw_borrowing("c", vec![ident("mut"), ident("a")]),
    ]);
    let d = create_actual_struct(shape).unwrap_err();
    assert_eq!(d.kind, ErrorKind::DoubleMutBorrow);
    assert_eq!(d.field, Some(2));
    assert_eq!(d.token, Some(1));
}

#[test]
fn shared_after_exclusive_is_rejected() {
    let shape = FieldsShape::Named(vec![
        raw("a"),
        raw_borrowing("b", vec![ident("mut"), ident("a")]),
        raw_borrowing("c", vec![ident("a")]),
    ]);
    let d = create_actual_struct(shape).unwrap_err();
    assert_eq!(d.kind, ErrorKind::ImmutAfterMut);
    assert_eq!(d.field, Some(2));
    assert_eq!(d.token, Some(0));
}

#[test]
fn exclusive_after_shared_is_rejected() {
    let shape = FieldsShape::Named(vec![
        raw("a"),
        raw_borrowing("b", vec![ident("a")]),
        raw_borrowing("c", vec![ident("mut"), ident("a")]),
    ]);
    let d = create_actual_struct(shape).unwrap_err();
    assert_eq!(d.kind, ErrorKind::MutAfterImmut);
    assert_eq!(d.field, Some(2));
    assert_eq!(d.token, Some(1));
}

#[test]
fn all_head_schema_is_rejected() {
    // schema with only {a: head, b: head}
    let shape = FieldsShape::Named(vec![raw("a"), raw("b")]);
    let d = create_actual_struct(shape).unwrap_err();
    assert_eq!(d.kind, ErrorKind::NoSelfReference);
    assert_eq!(d.field, Some(0));
}

#[test]
fn single_field_schema_is_rejected() {
    let shape = FieldsShape::Named(vec![raw("a")]);
    let d = create_actual_struct(shape).unwrap_err();
    assert_eq!(d.kind, ErrorKind::TooFewFields);
}

#[test]
fn tuple_schema_is_rejected() {
    let d = create_actual_struct(FieldsShape::Unnamed).unwrap_err();
    assert_eq!(d.kind, ErrorKind::TupleStruct);
}

#[test]
fn unit_schema_is_rejected() {
    let d = create_actual_struct(FieldsShape::Unit).unwrap_err();
    assert_eq!(d.kind, ErrorKind::UnitStruct);
}

#[test]
fn storage_is_reverse_declaration_order() {
    let shape = FieldsShape::Named(vec![
        raw("a"),
        raw("b"),
        raw_borrowing("c", vec![ident("a")]),
    ]);
    let a = create_actual_struct(shape).unwrap();
    let names: Vec<&str> = a.storage.iter().map(|s| s.name.as_str()).collect();
    assert_eq!(names, vec!["c", "b", "a"]);
}

#[test]
fn storage_types_have_validity_marker_erased() {
    let marked = FieldTy {
        tokens: vec![
            TokenNode::Punct('&'),
            TokenNode::Punct('\''),
            TokenNode::Ident("this".to_string()),
            TokenNode::Ident("i32".to_string()),
        ],
        box_arg: None,
    };
    let shape = FieldsShape::Named(vec![
        raw("a"),
        RawField {
            name: "b".to_string(),
            typ: marked,
            borrows_attr: Some(attr(vec![ident("a")])),
        },
    ]);
    let a = create_actual_struct(shape).unwrap();
    // storage slot 0 is field b, the last declared
    assert_eq!(a.storage[0].typ_tokens, vec![
        TokenNode::Punct('&'),
        TokenNode::Punct('\''),
        TokenNode::Ident("static".to_string()),
        TokenNode::Ident("i32".to_string()),
    ]);
}

#[test]
fn substitution_touches_only_the_marker() {
    let input = vec![
        TokenNode::Ident("this".to_string()),
        TokenNode::Ident("other".to_string()),
        TokenNode::Literal("\"this\"".to_string()),
        TokenNode::Ident("this".to_string()),
    ];
    let out = replace_this_with_static(&input);
    assert_eq!(out, vec![
        TokenNode::Ident("static".to_string()),
        TokenNode::Ident("other".to_string()),
        TokenNode::Literal("\"this\"".to_string()),
        TokenNode::Ident("static".to_string()),
    ]);
}

#[test]
fn options_default_to_off() {
    let o = parse_options(&vec![]).unwrap();
    assert!(!o.do_chain_hack);
    assert!(!o.do_no_doc);
}

#[test]
fn options_parse_both_flags() {
    let o = parse_options(&vec![ident("chain_hack"), comma(), ident("no_doc")]).unwrap();
    assert!(o.do_chain_hack);
    assert!(o.do_no_doc);
}

#[test]
fn unknown_option_is_rejected() {
    let d = parse_options(&vec![ident("fast")]).unwrap_err();
    assert_eq!(d.kind, ErrorKind::OptionUnknown);
    assert_eq!(d.token, Some(0));
}

#[test]
fn options_without_comma_are_rejected() {
    let d = parse_options(&vec![ident("chain_hack"), ident("no_doc")]).unwrap_err();
    assert_eq!(d.kind, ErrorKind::OptionExpectedComma);
    assert_eq!(d.token, Some(1));
}

#[test]
fn leading_option_punctuation_is_rejected() {
    let d = parse_options(&vec![comma()]).unwrap_err();
    assert_eq!(d.kind, ErrorKind::OptionUnexpectedPunct);
}

#[test]
fn wrong_option_separator_is_rejected() {
    let d = parse_options(&vec![ident("no_doc"), BorrowToken::Punct(';')]).unwrap_err();
    assert_eq!(d.kind, ErrorKind::OptionUnknownPunct);
    assert_eq!(d.token, Some(1));
}

#[test]
fn non_ident_option_is_rejected() {
    let d = parse_options(&vec![BorrowToken::Other]).unwrap_err();
    assert_eq!(d.kind, ErrorKind::OptionUnknownSyntax);
}

#[test]
fn empty_dependency_list_declares_nothing() {
    let mut fields = vec![bare_field("a")];
    let mut borrows = vec![];
    let r = handle_borrows_attr(&mut fields, &attr(vec![]), &mut borrows);
    assert!(r.is_ok());
    assert!(borrows.is_empty());
    assert_eq!(fields[0].field_type, FieldType::Tail);
}

#[test]
fn trailing_marker_without_name_declares_nothing_more() {
    let mut fields = vec![bare_field("a")];
    let mut borrows = vec![];
    let r = handle_borrows_attr(
        &mut fields,
        &attr(vec![ident("a"), comma(), ident("mut")]),
        &mut borrows,
    );
    assert!(r.is_ok());
    assert_eq!(borrows, vec![BorrowRequest { index: 0, mutable: false }]);
}
