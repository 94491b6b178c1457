//! The dependency parser.
//!
//! A field's dependency declaration is a parenthesized list of tokens, each
//! either the mutability marker `mut` or the name of a field declared
//! earlier, separated by commas.  Parsing resolves each name against the
//! previously processed fields, records one dependency edge per name, and
//! updates the role of each resolved target in place — `Tail` becomes
//! `Borrowed` or `BorrowedMut`, and conflicting requests fail at the exact
//! token that causes the conflict.
//!
//! The whole parse is specified functionally: [`parse_run`] folds
//! [`parse_step`] over the token list, and [`handle_borrows_attr`] promises
//! to agree with that fold, both on success and on failure.

use vstd::prelude::*;
use vstd::string::StringExecFns;

use crate::diag::{Diagnostic, ErrorKind};
use crate::field::{names_of, roles_of, BorrowRequest, FieldType, StructFieldInfo};

verus! {

/// One token inside a dependency declaration list.
#[derive(Debug)]
pub enum BorrowToken {
    /// An identifier: the marker `mut` or a field name.
    Ident(String),
    /// A single punctuation character.
    Punct(char),
    /// Any other token tree (a literal or a nested group).
    Other,
}

/// One token of the raw stream attached to a dependency attribute.  The
/// parser accepts only a stream whose first token is a delimited group.
#[derive(Debug)]
pub enum OuterToken {
    /// A delimited group and the tokens inside it.
    Group(Vec<BorrowToken>),
    /// Any token that is not a group.
    Leaf,
}

/// The parser's state between tokens: the roles of the previously declared
/// fields, the edges recorded so far, whether a `mut` marker is pending, and
/// whether the next token must be a comma.
pub struct ParserState {
    pub roles: Seq<FieldType>,
    pub edges: Seq<BorrowRequest>,
    pub borrow_mut: bool,
    pub awaiting_comma: bool,
}

/// The outcome of consuming a prefix of the token list: either a state to
/// continue from, or the first failure with the token that caused it.
pub enum ParseOutcome {
    Going(ParserState),
    Failed { kind: ErrorKind, token: int },
}

/// Whether name `s` resolves to index `j`: field `j` is the first field
/// named `s`.
pub open spec fn resolves_to(names: Seq<Seq<char>>, s: Seq<char>, j: int) -> bool {
    &&& 0 <= j < names.len()
    &&& names[j] == s
    &&& forall|k: int| 0 <= k < j ==> names[k] != s
}

/// Whether some previously declared field is named `s`.
pub open spec fn name_known(names: Seq<Seq<char>>, s: Seq<char>) -> bool {
    exists|j: int| resolves_to(names, s, j)
}

/// The index that name `s` resolves to (meaningful only when the name is
/// known).
pub open spec fn resolution(names: Seq<Seq<char>>, s: Seq<char>) -> int {
    choose|j: int| resolves_to(names, s, j)
}

/// Resolution is unique: there is at most one first field with a name.
pub proof fn lemma_resolution_unique(names: Seq<Seq<char>>, s: Seq<char>, j: int)
    requires
        resolves_to(names, s, j),
    ensures
        name_known(names, s),
        resolution(names, s) == j,
{
    assert(name_known(names, s));
    let j2 = resolution(names, s);
    assert(resolves_to(names, s, j2));
    if j2 < j {
        assert(names[j2] == s);
        assert(false);
    } else if j < j2 {
        assert(names[j] == s);
        assert(false);
    }
}

/// What one token does to the parser's state, or the failure it causes.
pub open spec fn parse_step(
    names: Seq<Seq<char>>,
    st: ParserState,
    t: BorrowToken,
    idx: int,
) -> ParseOutcome {
    match t {
        BorrowToken::Ident(id) => {
            if st.awaiting_comma {
                ParseOutcome::Failed { kind: ErrorKind::ExpectedComma, token: idx }
            } else if id@ == "mut"@ {
                if st.borrow_mut {
                    ParseOutcome::Failed { kind: ErrorKind::DoubleMut, token: idx }
                } else {
                    ParseOutcome::Going(ParserState { borrow_mut: true, ..st })
                }
            } else if !name_known(names, id@) {
                ParseOutcome::Failed { kind: ErrorKind::UnknownField, token: idx }
            } else {
                let j = resolution(names, id@);
                if st.borrow_mut {
                    if st.roles[j] is Borrowed {
                        ParseOutcome::Failed { kind: ErrorKind::MutAfterImmut, token: idx }
                    } else if st.roles[j] is BorrowedMut {
                        ParseOutcome::Failed { kind: ErrorKind::DoubleMutBorrow, token: idx }
                    } else {
                        ParseOutcome::Going(
                            ParserState {
                                roles: st.roles.update(j, FieldType::BorrowedMut),
                                edges: st.edges.push(
                                    BorrowRequest { index: j as usize, mutable: true },
                                ),
                                borrow_mut: false,
                                awaiting_comma: true,
                            },
                        )
                    }
                } else {
                    if st.roles[j] is BorrowedMut {
                        ParseOutcome::Failed { kind: ErrorKind::ImmutAfterMut, token: idx }
                    } else {
                        ParseOutcome::Going(
                            ParserState {
                                roles: st.roles.update(j, FieldType::Borrowed),
                                edges: st.edges.push(
                                    BorrowRequest { index: j as usize, mutable: false },
                                ),
                                borrow_mut: false,
                                awaiting_comma: true,
                            },
                        )
                    }
                }
            }
        },
        BorrowToken::Punct(c) => {
            if c == ',' {
                if st.awaiting_comma {
                    ParseOutcome::Going(ParserState { awaiting_comma: false, ..st })
                } else {
                    ParseOutcome::Failed { kind: ErrorKind::ExtraComma, token: idx }
                }
            } else {
                ParseOutcome::Failed { kind: ErrorKind::UnexpectedPunct, token: idx }
            }
        },
        BorrowToken::Other => ParseOutcome::Failed {
            kind: ErrorKind::UnexpectedToken,
            token: idx,
        },
    }
}

/// The state (or first failure) after consuming the first `n` tokens.
pub open spec fn parse_run(
    names: Seq<Seq<char>>,
    st0: ParserState,
    toks: Seq<BorrowToken>,
    n: int,
) -> ParseOutcome
    decreases n,
{
    if n <= 0 {
        ParseOutcome::Going(st0)
    } else {
        match parse_run(names, st0, toks, n - 1) {
            ParseOutcome::Going(st) => parse_step(names, st, toks[n - 1], n - 1),
            failed => failed,
        }
    }
}

/// Once the parse has failed, consuming more tokens changes nothing.
pub proof fn lemma_run_sticky(
    names: Seq<Seq<char>>,
    st0: ParserState,
    toks: Seq<BorrowToken>,
    k: int,
    m: int,
)
    requires
        0 <= k <= m,
        parse_run(names, st0, toks, k) is Failed,
    ensures
        parse_run(names, st0, toks, m) == parse_run(names, st0, toks, k),
    decreases m - k,
{
    if m > k {
        lemma_run_sticky(names, st0, toks, k, m - 1);
    }
}

/// What one successful step keeps intact: against any fixed base of edges
/// from other fields, roles stay consistent with the edges targeting each
/// field, every recorded edge stays in bounds, the edge list only grows, and
/// a role changes only away from `Tail`.
pub proof fn lemma_step_preserves(
    names: Seq<Seq<char>>,
    st: ParserState,
    t: BorrowToken,
    idx: int,
    base: Seq<BorrowRequest>,
    st2: ParserState,
)
    requires
        names.len() <= usize::MAX,
        st.roles.len() == names.len(),
        crate::field::edges_bounded(st.edges, names.len() as int),
        crate::field::roles_match_edges(st.roles, base + st.edges),
        parse_step(names, st, t, idx) == ParseOutcome::Going(st2),
    ensures
        st2.roles.len() == names.len(),
        crate::field::edges_bounded(st2.edges, names.len() as int),
        crate::field::roles_match_edges(st2.roles, base + st2.edges),
        st2.edges.len() >= st.edges.len(),
        st2.edges.subrange(0, st.edges.len() as int) == st.edges,
        forall|j: int|
            0 <= j < st.roles.len() ==> #[trigger] st2.roles[j] == st.roles[j] || st.roles[j]
                is Tail,
{
    match t {
        BorrowToken::Ident(id) => {
            if !st.awaiting_comma && id@ != "mut"@ {
                assert(name_known(names, id@));
                let j = resolution(names, id@);
                assert(resolves_to(names, id@, j));
                let e = st2.edges.last();
                assert(st2.edges == st.edges.push(e));
                assert(e.index == j as usize);
                assert(e.index as int == j);
                assert(e.mutable == st.borrow_mut);
                assert(st2.roles == st.roles.update(
                    j,
                    if st.borrow_mut {
                        FieldType::BorrowedMut
                    } else {
                        FieldType::Borrowed
                    },
                ));
                assert(base + st.edges.push(e) =~= (base + st.edges).push(e));
                assert(st.edges.push(e).subrange(0, st.edges.len() as int) =~= st.edges);
                assert(st.roles[j] is Tail || (st.roles[j] is Borrowed && !st.borrow_mut));
                assert forall|j2: int|
                    0 <= j2 < st2.roles.len() implies crate::field::role_matches_counts(
                    #[trigger] st2.roles[j2],
                    crate::field::incoming_edges(base + st2.edges, j2),
                    crate::field::incoming_mut_edges(base + st2.edges, j2),
                ) by {
                    let before = crate::field::incoming_edges(base + st.edges, j2);
                    let before_mut = crate::field::incoming_mut_edges(base + st.edges, j2);
                    assert(crate::field::role_matches_counts(st.roles[j2], before, before_mut));
                    crate::field::lemma_incoming_push(base + st.edges, e, j2);
                    assert(crate::field::incoming_edges((base + st.edges).push(e), j2)
                        == before + if e.index == j2 { 1nat } else { 0nat });
                    assert(crate::field::incoming_edges(base + st2.edges, j2)
                        == crate::field::incoming_edges((base + st.edges).push(e), j2));
                    if j2 == j {
                        assert(st2.roles[j2] == if st.borrow_mut {
                            FieldType::BorrowedMut
                        } else {
                            FieldType::Borrowed
                        });
                        crate::field::lemma_mut_le_total(base + st.edges, j2);
                        if st.borrow_mut {
                            assert(st.roles[j] is Tail);
                            assert(before == 0 && before_mut == 0);
                        } else {
                            assert(before_mut == 0);
                        }
                    } else {
                        assert(st2.roles[j2] == st.roles[j2]);
                        assert(e.index != j2);
                    }
                }
            } else {
                assert(st2.edges == st.edges);
                assert(st.edges.subrange(0, st.edges.len() as int) =~= st.edges);
            }
        },
        BorrowToken::Punct(c) => {
            assert(st2.edges == st.edges);
            assert(st.edges.subrange(0, st.edges.len() as int) =~= st.edges);
        },
        BorrowToken::Other => {
            assert(false);
        },
    }
}

/// [`lemma_step_preserves`], extended over any prefix of the token list.
pub proof fn lemma_run_preserves(
    names: Seq<Seq<char>>,
    st0: ParserState,
    toks: Seq<BorrowToken>,
    n: int,
    base: Seq<BorrowRequest>,
)
    requires
        0 <= n <= toks.len(),
        names.len() <= usize::MAX,
        st0.roles.len() == names.len(),
        crate::field::edges_bounded(st0.edges, names.len() as int),
        crate::field::roles_match_edges(st0.roles, base + st0.edges),
        parse_run(names, st0, toks, n) is Going,
    ensures
        parse_run(names, st0, toks, n) matches ParseOutcome::Going(st) ==> {
            &&& st.roles.len() == names.len()
            &&& crate::field::edges_bounded(st.edges, names.len() as int)
            &&& crate::field::roles_match_edges(st.roles, base + st.edges)
            &&& st.edges.len() >= st0.edges.len()
            &&& st.edges.subrange(0, st0.edges.len() as int) == st0.edges
            &&& forall|j: int|
                0 <= j < st0.roles.len() ==> #[trigger] st.roles[j] == st0.roles[j]
                    || st0.roles[j] is Tail
        },
    decreases n,
{
    if n <= 0 {
        assert(st0.edges.subrange(0, st0.edges.len() as int) =~= st0.edges);
    } else {
        match parse_run(names, st0, toks, n - 1) {
            ParseOutcome::Going(stm) => {
                lemma_run_preserves(names, st0, toks, n - 1, base);
                let st = parse_run(names, st0, toks, n)->Going_0;
                lemma_step_preserves(names, stm, toks[n - 1], n - 1, base, st);
                assert(st.edges.subrange(0, st0.edges.len() as int) =~= stm.edges.subrange(
                    0,
                    st0.edges.len() as int,
                ));
            },
            ParseOutcome::Failed { .. } => {
                assert(false);
            },
        }
    }
}

/// The inner token list of a dependency attribute: the contents of its first
/// token, provided that token is a group.
pub open spec fn attr_body(attr: Seq<OuterToken>) -> Option<Seq<BorrowToken>> {
    if attr.len() > 0 {
        match attr[0] {
            OuterToken::Group(toks) => Option::Some(toks@),
            OuterToken::Leaf => Option::None,
        }
    } else {
        Option::None
    }
}

/// The parser state the engine starts a field's declaration from: the
/// current roles, the edges handed in, no pending marker, no pending comma.
pub open spec fn init_state(
    fields: Seq<StructFieldInfo>,
    pending: Seq<BorrowRequest>,
) -> ParserState {
    ParserState {
        roles: roles_of(fields),
        edges: pending,
        borrow_mut: false,
        awaiting_comma: false,
    }
}

/// The index of the first field named `id`, or `None` if no field is.
fn find_field(field_info: &Vec<StructFieldInfo>, id: &String) -> (r: Option<usize>)
    ensures
        match r {
            Option::Some(j) => resolves_to(names_of(field_info@), id@, j as int),
            Option::None => !name_known(names_of(field_info@), id@),
        },
{
    let ghost names = names_of(field_info@);
    let mut k: usize = 0;
    while k < field_info.len()
        invariant
            k <= field_info@.len(),
            names == names_of(field_info@),
            forall|m: int| 0 <= m < k ==> names[m] != id@,
        decreases field_info@.len() - k,
    {
        assert(names[k as int] == field_info@[k as int].name@);
        if field_info[k].name == *id {
            return Option::Some(k);
        }
        k = k + 1;
    }
    assert forall|j: int| !resolves_to(names, id@, j) by {
        if 0 <= j < names.len() {
            assert(names[j] != id@);
        }
    }
    Option::None
}

/// Parses one field's dependency declaration against the previously
/// processed fields.
///
/// On success, one edge per named dependency has been appended to `borrows`
/// (in token order) and each resolved target's role in `field_info` has been
/// updated, exactly as [`parse_run`] describes.  On failure, the returned
/// diagnostic names the offending token, and `field_info` and `borrows` hold
/// the state reached just before that token.  Fields' names, types, and own
/// edge lists are never touched — only roles change.
pub fn handle_borrows_attr(
    field_info: &mut Vec<StructFieldInfo>,
    attr: &Vec<OuterToken>,
    borrows: &mut Vec<BorrowRequest>,
) -> (result: Result<(), Diagnostic>)
    ensures
        final(field_info)@.len() == old(field_info)@.len(),
        forall|j: int|
            0 <= j < final(field_info)@.len() ==> {
                &&& (#[trigger] final(field_info)@[j]).name == old(field_info)@[j].name
                &&& final(field_info)@[j].typ == old(field_info)@[j].typ
                &&& final(field_info)@[j].borrows == old(field_info)@[j].borrows
            },
        ({
            let names = names_of(old(field_info)@);
            let st0 = init_state(old(field_info)@, old(borrows)@);
            match attr_body(attr@) {
                Option::None => {
                    &&& result == Result::<(), Diagnostic>::Err(
                        Diagnostic {
                            kind: ErrorKind::BorrowsSyntax,
                            field: Option::None,
                            token: Option::None,
                        },
                    )
                    &&& final(field_info)@ == old(field_info)@
                    &&& final(borrows)@ == old(borrows)@
                },
                Option::Some(toks) => match parse_run(names, st0, toks, toks.len() as int) {
                    ParseOutcome::Going(st) => {
                        &&& result is Ok
                        &&& roles_of(final(field_info)@) == st.roles
                        &&& final(borrows)@ == st.edges
                    },
                    ParseOutcome::Failed { kind, token } => {
                        &&& result == Result::<(), Diagnostic>::Err(
                            Diagnostic {
                                kind: kind,
                                field: Option::None,
                                token: Option::Some(token as usize),
                            },
                        )
                        &&& parse_run(names, st0, toks, token) matches ParseOutcome::Going(st)
                            && roles_of(final(field_info)@) == st.roles
                            && final(borrows)@ == st.edges
                    },
                },
            }
        }),
{
    let ghost names = names_of(field_info@);
    let ghost st0 = init_state(field_info@, borrows@);
    if attr.len() == 0 {
        return Result::Err(Diagnostic::structural(ErrorKind::BorrowsSyntax));
    }
    let toks: &Vec<BorrowToken> = match &attr[0] {
        OuterToken::Group(g) => g,
        OuterToken::Leaf => {
            return Result::Err(Diagnostic::structural(ErrorKind::BorrowsSyntax));
        },
    };
    let mut borrow_mut: bool = false;
    let mut awaiting_comma: bool = false;
    let mut i: usize = 0;
    while i < toks.len()
        invariant
            i <= toks@.len(),
            attr_body(attr@) == Option::Some(toks@),
            names == names_of(old(field_info)@),
            st0 == init_state(old(field_info)@, old(borrows)@),
            field_info@.len() == old(field_info)@.len(),
            forall|j: int|
                0 <= j < field_info@.len() ==> {
                    &&& (#[trigger] field_info@[j]).name == old(field_info)@[j].name
                    &&& field_info@[j].typ == old(field_info)@[j].typ
                    &&& field_info@[j].borrows == old(field_info)@[j].borrows
                },
            names == names_of(field_info@),
            parse_run(names, st0, toks@, i as int) == ParseOutcome::Going(
                ParserState {
                    roles: roles_of(field_info@),
                    edges: borrows@,
                    borrow_mut: borrow_mut,
                    awaiting_comma: awaiting_comma,
                },
            ),
        decreases toks@.len() - i,
    {
        let ghost head_st = ParserState {
            roles: roles_of(field_info@),
            edges: borrows@,
            borrow_mut: borrow_mut,
            awaiting_comma: awaiting_comma,
        };
        let t = &toks[i];
        match t {
            BorrowToken::Ident(id) => {
                if awaiting_comma {
                    proof {
                        assert(parse_step(names, head_st, toks@[i as int], i as int)
                            == ParseOutcome::Failed {
                                kind: ErrorKind::ExpectedComma,
                                token: i as int,
                            });
                        lemma_run_sticky(names, st0, toks@, i + 1, toks@.len() as int);
                    }
                    return Result::Err(Diagnostic::at_token(ErrorKind::ExpectedComma, i));
                }
                if *id == "mut".to_owned() {
                    if borrow_mut {
                        proof {
                            lemma_run_sticky(names, st0, toks@, i + 1, toks@.len() as int);
                        }
                        return Result::Err(Diagnostic::at_token(ErrorKind::DoubleMut, i));
                    }
                    borrow_mut = true;
                } else {
                    match find_field(field_info, id) {
                        Option::None => {
                            proof {
                                lemma_run_sticky(names, st0, toks@, i + 1, toks@.len() as int);
                            }
                            return Result::Err(Diagnostic::at_token(ErrorKind::UnknownField, i));
                        },
                        Option::Some(j) => {
                            proof {
                                lemma_resolution_unique(names, id@, j as int);
                                assert(j < field_info@.len());
                            }
                            let role = field_info[j].field_type;
                            if borrow_mut {
                                if role == FieldType::Borrowed {
                                    proof {
                                        lemma_run_sticky(
                                            names, st0, toks@, i + 1, toks@.len() as int,
                                        );
                                    }
                                    return Result::Err(
                                        Diagnostic::at_token(ErrorKind::MutAfterImmut, i),
                                    );
                                }
                                if role == FieldType::BorrowedMut {
                                    proof {
                                        lemma_run_sticky(
                                            names, st0, toks@, i + 1, toks@.len() as int,
                                        );
                                    }
                                    return Result::Err(
                                        Diagnostic::at_token(ErrorKind::DoubleMutBorrow, i),
                                    );
                                }
                                field_info[j].field_type = FieldType::BorrowedMut;
                                borrows.push(BorrowRequest { index: j, mutable: true });
                                borrow_mut = false;
                                awaiting_comma = true;
                            } else {
                                if role == FieldType::BorrowedMut {
                                    proof {
                                        lemma_run_sticky(
                                            names, st0, toks@, i + 1, toks@.len() as int,
                                        );
                                    }
                                    return Result::Err(
                                        Diagnostic::at_token(ErrorKind::ImmutAfterMut, i),
                                    );
                                }
                                field_info[j].field_type = FieldType::Borrowed;
                                borrows.push(BorrowRequest { index: j, mutable: false });
                                awaiting_comma = true;
                            }
                            proof {
                                assert(names_of(field_info@) =~= names);
                                assert(roles_of(field_info@) =~= head_st.roles.update(
                                    j as int,
                                    field_info@[j as int].field_type,
                                ));
                            }
                        },
                    }
                }
            },
            BorrowToken::Punct(c) => {
                if *c == ',' {
                    if awaiting_comma {
                        awaiting_comma = false;
                    } else {
                        proof {
                            lemma_run_sticky(names, st0, toks@, i + 1, toks@.len() as int);
                        }
                        return Result::Err(Diagnostic::at_token(ErrorKind::ExtraComma, i));
                    }
                } else {
                    proof {
                        lemma_run_sticky(names, st0, toks@, i + 1, toks@.len() as int);
                    }
                    return Result::Err(Diagnostic::at_token(ErrorKind::UnexpectedPunct, i));
                }
            },
            BorrowToken::Other => {
                proof {
                    lemma_run_sticky(names, st0, toks@, i + 1, toks@.len() as int);
                }
                return Result::Err(Diagnostic::at_token(ErrorKind::UnexpectedToken, i));
            },
        }
        proof {
            let new_st = ParserState {
                roles: roles_of(field_info@),
                edges: borrows@,
                borrow_mut: borrow_mut,
                awaiting_comma: awaiting_comma,
            };
            assert(parse_step(names, head_st, toks@[i as int], i as int)
                == ParseOutcome::Going(new_st));
        }
        i = i + 1;
    }
    Result::Ok(())
}

} // verus!
