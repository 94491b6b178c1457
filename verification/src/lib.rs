//! Static analysis and code planning for safe self-referencing structs.
//!
//! Given a description of a struct whose fields may borrow earlier fields of
//! the same struct, this library parses the declared borrows, classifies each
//! field by how it is borrowed, checks the structural rules that make such a
//! struct sound, and plans the storage layout and the generated API surface
//! (constructors, builders, accessors, and head extraction).

pub mod access;
pub mod casing;
pub mod borrows;
pub mod construct;
pub mod diag;
pub mod expand;
pub mod field;
pub mod laws;
pub mod layout;
pub mod token;
