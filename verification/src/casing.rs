//! Identifier case conversion, delegated to the `inflector` crate.
//!
//! The generated surface derives some identifiers by case conversion: the
//! builder type parameter for a field is named after the field in class case,
//! and the module holding the generated items is named after the struct in
//! snake case.  What exactly those conversions produce is the outside crate's
//! business; the engine only needs each to be a function of the characters
//! alone, so the results are named by uninterpreted spec functions.

use vstd::prelude::*;

verus! {

/// The class-case form of a character sequence, as `inflector` computes it
/// (for example `my_field` becomes `MyField`).
pub uninterp spec fn class_case_of(s: Seq<char>) -> Seq<char>;

/// The snake-case form of a character sequence, as `inflector` computes it
/// (for example `MyStruct` becomes `my_struct`).
pub uninterp spec fn snake_case_of(s: Seq<char>) -> Seq<char>;

/// Relies on `inflector::cases::classcase::to_class_case`: the result is a
/// pure function of the input characters.
#[verifier::external_body]
pub(crate) fn to_class_case(s: &str) -> (r: String)
    ensures
        r@ == class_case_of(s@),
{
    inflector::cases::classcase::to_class_case(s)
}

/// Relies on `inflector::cases::snakecase::to_snake_case`: the result is a
/// pure function of the input characters.
#[verifier::external_body]
pub(crate) fn to_snake_case(s: &str) -> (r: String)
    ensures
        r@ == snake_case_of(s@),
{
    inflector::cases::snakecase::to_snake_case(s)
}

} // verus!
