//! A flat model of host source tokens.
//!
//! A token stream is a flat sequence: group delimiters appear as explicit
//! `Open`/`Close` markers, so no token nests inside another.  The layout
//! planner rewrites the symbolic `this` validity marker to `static` across a
//! whole stream with [`replace_this_with_static`].

use vstd::prelude::*;

verus! {

/// Grouping delimiter of a delimited token group.
#[derive(Clone, Copy, PartialEq, Eq, Structural, Debug)]
pub enum Delim {
    Paren,
    Bracket,
    Brace,
    /// An invisible delimiter, as produced by macro expansion.
    Bare,
}

/// One token of host source text.
#[derive(Debug, PartialEq, Eq)]
pub enum TokenNode {
    /// An identifier, including the identifier part of a lifetime.
    Ident(String),
    /// A single punctuation character.
    Punct(char),
    /// A literal, carried as its source text.
    Literal(String),
    /// The opening delimiter of a group.
    Open(Delim),
    /// The closing delimiter of a group.
    Close(Delim),
}

/// The mathematical value of a token: identifier and literal text as
/// character sequences.
pub enum TokenView {
    Ident(Seq<char>),
    Punct(char),
    Literal(Seq<char>),
    Open(Delim),
    Close(Delim),
}

impl View for TokenNode {
    type V = TokenView;

    open spec fn view(&self) -> TokenView {
        match self {
            TokenNode::Ident(s) => TokenView::Ident(s@),
            TokenNode::Punct(c) => TokenView::Punct(*c),
            TokenNode::Literal(s) => TokenView::Literal(s@),
            TokenNode::Open(d) => TokenView::Open(*d),
            TokenNode::Close(d) => TokenView::Close(*d),
        }
    }
}

/// The views of every token of a stream.
pub open spec fn views_of(s: Seq<TokenNode>) -> Seq<TokenView> {
    s.map_values(|t: TokenNode| t@)
}

/// What the validity-marker substitution makes of one token: the identifier
/// `this` becomes `static`; every other token is kept.
pub open spec fn subst_token(t: TokenView) -> TokenView {
    match t {
        TokenView::Ident(s) => if s == "this"@ {
            TokenView::Ident("static"@)
        } else {
            t
        },
        _ => t,
    }
}

/// The validity-marker substitution applied to a whole stream.
pub open spec fn subst_stream(s: Seq<TokenView>) -> Seq<TokenView> {
    s.map_values(|t: TokenView| subst_token(t))
}

impl TokenNode {
    /// An equal copy of this token.
    pub fn duplicate(&self) -> (r: TokenNode)
        ensures
            r == *self,
    {
        match self {
            TokenNode::Ident(s) => TokenNode::Ident(s.clone()),
            TokenNode::Punct(c) => TokenNode::Punct(*c),
            TokenNode::Literal(s) => TokenNode::Literal(s.clone()),
            TokenNode::Open(d) => TokenNode::Open(*d),
            TokenNode::Close(d) => TokenNode::Close(*d),
        }
    }
}

/// An equal copy of a whole token stream.
pub fn duplicate_stream(v: &Vec<TokenNode>) -> (r: Vec<TokenNode>)
    ensures
        r@ == v@,
{
    let mut r: Vec<TokenNode> = Vec::new();
    let mut i: usize = 0;
    while i < v.len()
        invariant
            i <= v@.len(),
            r@ == v@.subrange(0, i as int),
        decreases v@.len() - i,
    {
        r.push(v[i].duplicate());
        assert(r@ == v@.subrange(0, i + 1 as int));
        i = i + 1;
    }
    assert(v@.subrange(0, v@.len() as int) == v@);
    r
}

/// Rewrites every occurrence of the identifier `this` in a stream to
/// `static`, leaving all other tokens unchanged.  This is the layout
/// planner's scope erasure: the storage type replaces the symbolic
/// current-instance validity marker with an unconstrained one.
pub fn replace_this_with_static(input: &Vec<TokenNode>) -> (r: Vec<TokenNode>)
    ensures
        views_of(r@) == subst_stream(views_of(input@)),
{
    let mut r: Vec<TokenNode> = Vec::new();
    let mut i: usize = 0;
    while i < input.len()
        invariant
            i <= input@.len(),
            views_of(r@) == subst_stream(views_of(input@).subrange(0, i as int)),
        decreases input@.len() - i,
    {
        let t = &input[i];
        let nt = match t {
            TokenNode::Ident(s) => {
                if *s == "this".to_owned() {
                    TokenNode::Ident("static".to_owned())
                } else {
                    TokenNode::Ident(s.clone())
                }
            },
            _ => t.duplicate(),
        };
        assert(nt@ == subst_token(input@[i as int]@));
        let ghost prev = r@;
        r.push(nt);
        proof {
            let lhs = views_of(r@);
            let rhs = subst_stream(views_of(input@).subrange(0, i + 1));
            assert(r@ == prev.push(nt));
            assert(views_of(prev).len() == prev.len());
            assert(views_of(prev).len() == i as int);
            assert(lhs.len() == prev.len() + 1);
            assert(views_of(input@).subrange(0, i + 1).len() == i + 1);
            assert(rhs.len() == i + 1);
            assert(lhs.len() == rhs.len());
            assert forall|j: int| 0 <= j < lhs.len() implies lhs[j] == rhs[j] by {
                assert(lhs[j] == r@[j]@);
                assert(rhs[j] == subst_token(views_of(input@).subrange(0, i + 1)[j]));
                assert(views_of(input@).subrange(0, i + 1)[j] == input@[j]@);
                if j < i {
                    assert(r@[j] == prev[j]);
                    assert(views_of(prev)[j] == prev[j]@);
                    assert(subst_stream(views_of(input@).subrange(0, i as int))[j]
                        == subst_token(views_of(input@).subrange(0, i as int)[j]));
                    assert(views_of(input@).subrange(0, i as int)[j] == input@[j]@);
                } else {
                    assert(r@[j] == nt);
                }
            }
            assert(lhs =~= rhs);
        }
        i = i + 1;
    }
    assert(views_of(input@).subrange(0, input@.len() as int) == views_of(input@));
    r
}

} // verus!
