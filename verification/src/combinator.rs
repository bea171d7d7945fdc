//! The combinator tree: the immutable grammar a parser evaluates.
//!
//! Logical cycles (self- or mutually-recursive rules) are expressed with an
//! indirection node, [`Combinator::Deferred`], whose body may refer back to
//! an enclosing indirection through [`Combinator::SelfRef`]; the reference
//! counts enclosing `Deferred` nodes from the innermost outwards.

use crate::ast::{Ast, Token};
use crate::funcs::{AstMap, AstPred, AstSplit, TokenPred};
use crate::results::{ParseError, ParseErrorView};
use vstd::prelude::*;

verus! {

/// One node of a grammar: a parsing strategy for a prefix of the input.
#[derive(Debug, PartialEq, Eq)]
pub enum Combinator {
    /// Matches exactly the given token and produces it as the value.
    Tok(Token),
    /// Matches the one next token a predicate accepts; the predicate chooses
    /// the value.
    Pred(TokenPred),
    /// Runs the left part, then the right part on every remainder the left
    /// part produced; values pair up.
    Sequence(Box<Combinator>, Box<Combinator>),
    /// Tries both parts on the same input and keeps every derivation either
    /// finds.
    Choice(Box<Combinator>, Box<Combinator>),
    /// Runs the inner combinator, then rewrites every derivation's value.
    Mapped(Box<Combinator>, AstMap),
    /// Runs the inner combinator and keeps only derivations whose value
    /// passes the test; when none passes, fails with the carried error.
    Filtered(Box<Combinator>, AstPred, ParseError),
    /// Runs the inner combinator, then expands every derivation's value into
    /// zero, one, or many values sharing its remainder.  When every
    /// expansion comes up empty the attempt fails with the unknown-token
    /// error: no more specific error is available at that point.
    Split(Box<Combinator>, AstSplit),
    /// Consumes nothing and succeeds with the carried value.
    Epsilon(Ast),
    /// The indirection node: evaluation steps into the body, and the body
    /// may step back to this node through [`Combinator::SelfRef`].
    Deferred(Box<Combinator>),
    /// A reference to the body of the n-th enclosing [`Combinator::Deferred`]
    /// node, counting from the innermost outwards; one with no such
    /// enclosing node never matches.
    SelfRef(usize),
    /// Forwards to the inner combinator unchanged; the optional label names
    /// this spot in left-recursion verdicts.
    Labeled(Box<Combinator>, Option<String>),
}

/// The mathematical shape of a [`Combinator`], with error views and label
/// character sequences in place of vectors and strings.
#[verifier::ext_equal]
pub enum CombinatorView {
    Tok(Token),
    Pred(TokenPred),
    Sequence(Box<CombinatorView>, Box<CombinatorView>),
    Choice(Box<CombinatorView>, Box<CombinatorView>),
    Mapped(Box<CombinatorView>, AstMap),
    Filtered(Box<CombinatorView>, AstPred, ParseErrorView),
    Split(Box<CombinatorView>, AstSplit),
    Epsilon(Ast),
    Deferred(Box<CombinatorView>),
    SelfRef(usize),
    Labeled(Box<CombinatorView>, Option<Seq<char>>),
}

impl View for Combinator {
    type V = CombinatorView;

    open spec fn view(&self) -> CombinatorView
        decreases self,
    {
        match self {
            Combinator::Tok(t) => CombinatorView::Tok(*t),
            Combinator::Pred(p) => CombinatorView::Pred(*p),
            Combinator::Sequence(p1, p2) => CombinatorView::Sequence(
                Box::new((**p1)@),
                Box::new((**p2)@),
            ),
            Combinator::Choice(p1, p2) => CombinatorView::Choice(
                Box::new((**p1)@),
                Box::new((**p2)@),
            ),
            Combinator::Mapped(p, m) => CombinatorView::Mapped(Box::new((**p)@), *m),
            Combinator::Filtered(p, q, e) => CombinatorView::Filtered(
                Box::new((**p)@),
                *q,
                e@,
            ),
            Combinator::Split(p, s) => CombinatorView::Split(Box::new((**p)@), *s),
            Combinator::Epsilon(a) => CombinatorView::Epsilon(*a),
            Combinator::Deferred(b) => CombinatorView::Deferred(Box::new((**b)@)),
            Combinator::SelfRef(k) => CombinatorView::SelfRef(*k),
            Combinator::Labeled(p, msg) => CombinatorView::Labeled(
                Box::new((**p)@),
                match msg {
                    Some(s) => Some(s@),
                    None => None,
                },
            ),
        }
    }
}

impl Combinator {
    /// An owned copy of the same grammar.
    pub fn duplicate(&self) -> (r: Combinator)
        ensures
            r@ == self@,
        decreases self,
    {
        match self {
            Combinator::Tok(t) => Combinator::Tok(*t),
            Combinator::Pred(p) => Combinator::Pred(p.duplicate()),
            Combinator::Sequence(p1, p2) => Combinator::Sequence(
                Box::new(p1.duplicate()),
                Box::new(p2.duplicate()),
            ),
            Combinator::Choice(p1, p2) => Combinator::Choice(
                Box::new(p1.duplicate()),
                Box::new(p2.duplicate()),
            ),
            Combinator::Mapped(p, m) => Combinator::Mapped(Box::new(p.duplicate()), m.duplicate()),
            Combinator::Filtered(p, q, e) => Combinator::Filtered(
                Box::new(p.duplicate()),
                q.duplicate(),
                e.duplicate(),
            ),
            Combinator::Split(p, s) => Combinator::Split(Box::new(p.duplicate()), s.duplicate()),
            Combinator::Epsilon(a) => Combinator::Epsilon(a.duplicate()),
            Combinator::Deferred(b) => Combinator::Deferred(Box::new(b.duplicate())),
            Combinator::SelfRef(k) => Combinator::SelfRef(*k),
            Combinator::Labeled(p, msg) => Combinator::Labeled(
                Box::new(p.duplicate()),
                match msg {
                    Some(s) => Some(s.clone()),
                    None => None,
                },
            ),
        }
    }
}

/// True of a grammar all of whose successful derivations consume at least
/// one token, provided every deferred body it can step into is itself
/// consuming.  A choice must make progress on both sides; a sequence makes
/// progress as soon as either side does; the empty-match node is the one
/// primitive that does not.
pub open spec fn spec_consuming(c: CombinatorView) -> bool
    decreases c,
{
    match c {
        CombinatorView::Tok(_) => true,
        CombinatorView::Pred(_) => true,
        CombinatorView::Sequence(p1, p2) => spec_consuming(*p1) || spec_consuming(*p2),
        CombinatorView::Choice(p1, p2) => spec_consuming(*p1) && spec_consuming(*p2),
        CombinatorView::Mapped(p, _) => spec_consuming(*p),
        CombinatorView::Filtered(p, _, _) => spec_consuming(*p),
        CombinatorView::Split(p, _) => spec_consuming(*p),
        CombinatorView::Epsilon(_) => false,
        CombinatorView::Deferred(b) => spec_consuming(*b),
        CombinatorView::SelfRef(_) => true,
        CombinatorView::Labeled(p, _) => spec_consuming(*p),
    }
}

/// True of a grammar with no indirection node and no self-reference:
/// evaluating such a grammar never spends any of its recursion budget.
pub open spec fn spec_rec_free(c: CombinatorView) -> bool
    decreases c,
{
    match c {
        CombinatorView::Tok(_) => true,
        CombinatorView::Pred(_) => true,
        CombinatorView::Sequence(p1, p2) => spec_rec_free(*p1) && spec_rec_free(*p2),
        CombinatorView::Choice(p1, p2) => spec_rec_free(*p1) && spec_rec_free(*p2),
        CombinatorView::Mapped(p, _) => spec_rec_free(*p),
        CombinatorView::Filtered(p, _, _) => spec_rec_free(*p),
        CombinatorView::Split(p, _) => spec_rec_free(*p),
        CombinatorView::Epsilon(_) => true,
        CombinatorView::Deferred(_) => false,
        CombinatorView::SelfRef(_) => false,
        CombinatorView::Labeled(p, _) => spec_rec_free(*p),
    }
}

} // verus!
