//! The closed language of caller-supplied transformations.
//!
//! A grammar author picks predicates, value maps, filters and splits from
//! these first-order descriptions; the engine interprets them.  Each has a
//! specification-level meaning and an executable application proved to agree
//! with it.

use crate::ast::{spec_list_append, Ast, Token};
use vstd::prelude::*;

verus! {

/// What a predicate primitive does with the one token it inspects: either a
/// value to succeed with, or a refusal.
#[derive(Debug, PartialEq, Eq)]
pub enum TokenPred {
    /// Accepts every token, producing the token itself.
    AnyTok,
    /// Accepts a token between the two bounds inclusive, producing the token
    /// itself.
    InRange(Token, Token),
    /// Accepts exactly the given token, producing the carried value.
    IfEq(Token, Ast),
    /// Refuses every token.
    Never,
}

/// The value, if any, a predicate assigns to a token.
pub open spec fn spec_apply_pred(p: TokenPred, t: Token) -> Option<Ast> {
    match p {
        TokenPred::AnyTok => Some(Ast::Num(t)),
        TokenPred::InRange(lo, hi) => if lo <= t <= hi {
            Some(Ast::Num(t))
        } else {
            None
        },
        TokenPred::IfEq(k, out) => if t == k {
            Some(out)
        } else {
            None
        },
        TokenPred::Never => None,
    }
}

impl TokenPred {
    /// Applies the predicate to one token; see [`spec_apply_pred`].
    pub fn apply(&self, t: Token) -> (r: Option<Ast>)
        ensures
            r == spec_apply_pred(*self, t),
    {
        match self {
            TokenPred::AnyTok => Some(Ast::Num(t)),
            TokenPred::InRange(lo, hi) => if *lo <= t && t <= *hi {
                Some(Ast::Num(t))
            } else {
                None
            },
            TokenPred::IfEq(k, out) => if t == *k {
                Some(out.duplicate())
            } else {
                None
            },
            TokenPred::Never => None,
        }
    }

    /// An owned copy of the same predicate.
    pub fn duplicate(&self) -> (r: TokenPred)
        ensures
            r == self,
    {
        match self {
            TokenPred::AnyTok => TokenPred::AnyTok,
            TokenPred::InRange(lo, hi) => TokenPred::InRange(*lo, *hi),
            TokenPred::IfEq(k, out) => TokenPred::IfEq(*k, out.duplicate()),
            TokenPred::Never => TokenPred::Never,
        }
    }
}

/// A pure function applied to every derivation's value by the map
/// combinator.
#[derive(Debug, PartialEq, Eq)]
pub enum AstMap {
    /// Replaces every value with the carried one.
    ToConst(Ast),
    /// Leaves every value as it is.
    Keep,
    /// Wraps the value into a one-element list.
    WrapList,
    /// Turns a pair of lists into their concatenation; any other value is
    /// left as it is.
    JoinPair,
}

/// The value a map assigns to a value.
pub open spec fn spec_apply_map(m: AstMap, a: Ast) -> Ast {
    match m {
        AstMap::ToConst(k) => k,
        AstMap::Keep => a,
        AstMap::WrapList => Ast::Cons(Box::new(a), Box::new(Ast::Nil)),
        AstMap::JoinPair => match a {
            Ast::Pair(l, r) => spec_list_append(*l, *r),
            other => other,
        },
    }
}

impl AstMap {
    /// Applies the map to one value; see [`spec_apply_map`].
    pub fn apply(&self, a: Ast) -> (r: Ast)
        ensures
            r == spec_apply_map(*self, a),
    {
        match self {
            AstMap::ToConst(k) => k.duplicate(),
            AstMap::Keep => a,
            AstMap::WrapList => Ast::Cons(Box::new(a), Box::new(Ast::Nil)),
            AstMap::JoinPair => match a {
                Ast::Pair(l, r) => crate::ast::list_append(*l, *r),
                other => other,
            },
        }
    }

    /// An owned copy of the same map.
    pub fn duplicate(&self) -> (r: AstMap)
        ensures
            r == self,
    {
        match self {
            AstMap::ToConst(k) => AstMap::ToConst(k.duplicate()),
            AstMap::Keep => AstMap::Keep,
            AstMap::WrapList => AstMap::WrapList,
            AstMap::JoinPair => AstMap::JoinPair,
        }
    }
}

/// A test on a derivation's value, used by the filter combinator to decide
/// which derivations stay.
#[derive(Debug, PartialEq, Eq)]
pub enum AstPred {
    /// Keeps every value.
    Always,
    /// Keeps no value.
    Never,
    /// Keeps exactly the values equal to the carried one.
    EqTo(Ast),
    /// Keeps scalar values between the two bounds inclusive.
    NumInRange(u64, u64),
}

/// Whether a filter test keeps a value.
pub open spec fn spec_apply_test(p: AstPred, a: Ast) -> bool {
    match p {
        AstPred::Always => true,
        AstPred::Never => false,
        AstPred::EqTo(k) => a == k,
        AstPred::NumInRange(lo, hi) => a matches Ast::Num(n) && lo <= n <= hi,
    }
}

impl AstPred {
    /// Applies the test to one value; see [`spec_apply_test`].
    pub fn apply(&self, a: &Ast) -> (r: bool)
        ensures
            r == spec_apply_test(*self, *a),
    {
        match self {
            AstPred::Always => true,
            AstPred::Never => false,
            AstPred::EqTo(k) => a.eq_value(k),
            AstPred::NumInRange(lo, hi) => match a {
                Ast::Num(n) => *lo <= *n && *n <= *hi,
                _ => false,
            },
        }
    }

    /// An owned copy of the same test.
    pub fn duplicate(&self) -> (r: AstPred)
        ensures
            r == self,
    {
        match self {
            AstPred::Always => AstPred::Always,
            AstPred::Never => AstPred::Never,
            AstPred::EqTo(k) => AstPred::EqTo(k.duplicate()),
            AstPred::NumInRange(lo, hi) => AstPred::NumInRange(*lo, *hi),
        }
    }
}

/// A one-to-many expansion of a derivation's value, used by the split
/// combinator: each value becomes zero, one, or many values, all sharing the
/// derivation's remainder.
#[derive(Debug, PartialEq, Eq)]
pub enum AstSplit {
    /// A list value becomes its elements, possibly none; a non-list value
    /// stays as one result.
    Elems,
    /// A pair becomes its two halves; a non-pair value stays as one result.
    PairParts,
    /// Every value stays as exactly one result.
    KeepOne,
}

/// The elements of a list value; a non-list value stands for itself alone.
pub open spec fn spec_list_elems(a: Ast) -> Seq<Ast>
    decreases a,
{
    match a {
        Ast::Nil => Seq::empty(),
        Ast::Cons(h, t) => seq![*h] + spec_list_elems(*t),
        other => seq![other],
    }
}

/// The values a split assigns to a value, in order.
pub open spec fn spec_apply_split(s: AstSplit, a: Ast) -> Seq<Ast> {
    match s {
        AstSplit::Elems => spec_list_elems(a),
        AstSplit::PairParts => match a {
            Ast::Pair(l, r) => seq![*l, *r],
            other => seq![other],
        },
        AstSplit::KeepOne => seq![a],
    }
}

/// The elements of a list value; see [`spec_list_elems`].
fn list_elems(a: Ast) -> (r: Vec<Ast>)
    ensures
        r@ == spec_list_elems(a),
    decreases a,
{
    match a {
        Ast::Nil => Vec::new(),
        Ast::Cons(h, t) => {
            let mut out: Vec<Ast> = Vec::new();
            out.push(*h);
            let mut rest = list_elems(*t);
            out.append(&mut rest);
            proof {
                assert(out@ =~= spec_list_elems(Ast::Cons(h, t)));
            }
            out
        },
        other => {
            let mut out: Vec<Ast> = Vec::new();
            out.push(other);
            proof {
                assert(out@ =~= spec_list_elems(out@[0]));
            }
            out
        },
    }
}

impl AstSplit {
    /// Applies the split to one value; see [`spec_apply_split`].
    pub fn apply(&self, a: Ast) -> (r: Vec<Ast>)
        ensures
            r@ == spec_apply_split(*self, a),
    {
        match self {
            AstSplit::Elems => list_elems(a),
            AstSplit::PairParts => match a {
                Ast::Pair(l, r) => {
                    let mut out: Vec<Ast> = Vec::new();
                    out.push(*l);
                    out.push(*r);
                    proof {
                        assert(out@ =~= seq![out@[0], out@[1]]);
                    }
                    out
                },
                other => {
                    let mut out: Vec<Ast> = Vec::new();
                    out.push(other);
                    proof {
                        assert(out@ =~= seq![out@[0]]);
                    }
                    out
                },
            },
            AstSplit::KeepOne => {
                let mut out: Vec<Ast> = Vec::new();
                out.push(a);
                proof {
                    assert(out@ =~= seq![out@[0]]);
                }
                out
            },
        }
    }

    /// An owned copy of the same split.
    pub fn duplicate(&self) -> (r: AstSplit)
        ensures
            r == self,
    {
        match self {
            AstSplit::Elems => AstSplit::Elems,
            AstSplit::PairParts => AstSplit::PairParts,
            AstSplit::KeepOne => AstSplit::KeepOne,
        }
    }
}

} // verus!
