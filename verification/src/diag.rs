//! Analysis-time diagnostics.
//!
//! The engine either fully succeeds or fails with one diagnostic; it never
//! produces partial output.  A diagnostic names the rule that was broken and,
//! where one specific token or field caused it, the position of that token
//! inside the dependency declaration and the index of that field.

use vstd::prelude::*;

verus! {

/// Every rule whose violation aborts the transformation.
#[derive(Clone, Copy, PartialEq, Eq, Structural, Debug)]
pub enum ErrorKind {
    /// The dependency attribute is not a single parenthesized list.
    BorrowsSyntax,
    /// An identifier appeared where a comma was expected.
    ExpectedComma,
    /// Two mutability markers in a row.
    DoubleMut,
    /// An identifier that names no previously declared field.
    UnknownField,
    /// A mutable borrow of a field already borrowed immutably.
    MutAfterImmut,
    /// A mutable borrow of a field already borrowed mutably.
    DoubleMutBorrow,
    /// An immutable borrow of a field already borrowed mutably.
    ImmutAfterMut,
    /// A comma where a dependency was expected.
    ExtraComma,
    /// Punctuation other than a comma.
    UnexpectedPunct,
    /// A token that is neither an identifier nor punctuation.
    UnexpectedToken,
    /// The schema has positional fields.
    TupleStruct,
    /// The schema has no fields at all.
    UnitStruct,
    /// The schema has fewer than two fields.
    TooFewFields,
    /// No field declares a dependency, so nothing is self-referential.
    NoSelfReference,
    /// In compatibility mode a dependency target must be a `Box`.
    NotABox,
    /// An identifier appeared in the option list where a comma was expected.
    OptionExpectedComma,
    /// An option that is neither `chain_hack` nor `no_doc`.
    OptionUnknown,
    /// Punctuation in the option list where an identifier was expected.
    OptionUnexpectedPunct,
    /// Option list punctuation other than a comma.
    OptionUnknownPunct,
    /// An option token that is not an identifier.
    OptionUnknownSyntax,
}

/// One analysis-time diagnostic: the broken rule, the field it concerns
/// (if one does), and the offending token's position inside the token list
/// it came from (if one token caused it).
#[derive(Clone, Copy, Debug, PartialEq, Eq)]
pub struct Diagnostic {
    pub kind: ErrorKind,
    pub field: Option<usize>,
    pub token: Option<usize>,
}

impl Diagnostic {
    /// A diagnostic about the schema as a whole.
    pub fn structural(kind: ErrorKind) -> (r: Diagnostic)
        ensures
            r.kind == kind,
            r.field is None,
            r.token is None,
    {
        Diagnostic { kind, field: None, token: None }
    }

    /// A diagnostic caused by one specific token.
    pub fn at_token(kind: ErrorKind, token: usize) -> (r: Diagnostic)
        ensures
            r.kind == kind,
            r.field is None,
            r.token == Some(token),
    {
        Diagnostic { kind, field: None, token: Some(token) }
    }

    /// The same diagnostic, attributed to the given field.
    pub fn for_field(self, field: usize) -> (r: Diagnostic)
        ensures
            r.kind == self.kind,
            r.field == Some(field),
            r.token == self.token,
    {
        Diagnostic { kind: self.kind, field: Some(field), token: self.token }
    }
}

} // verus!
