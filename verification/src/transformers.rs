//! The derived combinator library: repetition, interleaving, N-ary
//! conjunction and disjunction, built purely by composing the primitives.
//! Each function's contract pins down the exact tree it builds; what that
//! tree does to input then follows from the engine's specification.

use crate::ast::Ast;
use crate::combinator::CombinatorView;
use crate::funcs::{AstMap, TokenPred};
use crate::parsers::{epsilon, lazy, pred, self_ref, Parser};
use vstd::prelude::*;

verus! {

/// The tree [`vecify`] builds.
pub open spec fn spec_vecify(p: CombinatorView) -> CombinatorView {
    CombinatorView::Mapped(Box::new(p), AstMap::WrapList)
}

/// The tree [`concat`] and its list-valued form build.
pub open spec fn spec_concat_vecs(l: CombinatorView, r: CombinatorView) -> CombinatorView {
    CombinatorView::Mapped(
        Box::new(CombinatorView::Sequence(Box::new(l), Box::new(r))),
        AstMap::JoinPair,
    )
}

/// The tree [`series_vecs`] builds: one or more repetitions, as the choice
/// between exactly one occurrence and one followed by more, tied back to
/// itself through an indirection node.
pub open spec fn spec_series_vecs(p: CombinatorView) -> CombinatorView {
    CombinatorView::Deferred(
        Box::new(
            CombinatorView::Choice(
                Box::new(p),
                Box::new(spec_concat_vecs(p, CombinatorView::SelfRef(0))),
            ),
        ),
    )
}

/// The tree [`repeat_n_times_vecs`] builds: `n` occurrences, concatenated
/// leftwards.
pub open spec fn spec_repeat_vecs(p: CombinatorView, n: nat) -> CombinatorView
    decreases n,
{
    if n <= 1 {
        p
    } else {
        spec_concat_vecs(spec_repeat_vecs(p, (n - 1) as nat), p)
    }
}

/// The tree [`disjunction`] builds: the alternatives folded leftwards under
/// alternation; of none, a combinator that never succeeds.
pub open spec fn spec_disjunction(s: Seq<CombinatorView>) -> CombinatorView
    decreases s.len(),
{
    if s.len() == 0 {
        CombinatorView::Pred(TokenPred::Never)
    } else if s.len() == 1 {
        s[0]
    } else {
        CombinatorView::Choice(Box::new(spec_disjunction(s.drop_last())), Box::new(s.last()))
    }
}

/// The tree [`conjoin_vecs`] builds: the parts folded leftwards under
/// list concatenation; of none, a combinator that consumes nothing and
/// yields the empty list.
pub open spec fn spec_conjoin_vecs(s: Seq<CombinatorView>) -> CombinatorView
    decreases s.len(),
{
    if s.len() == 0 {
        CombinatorView::Epsilon(Ast::Nil)
    } else if s.len() == 1 {
        s[0]
    } else {
        spec_concat_vecs(spec_conjoin_vecs(s.drop_last()), s.last())
    }
}

/// The tree [`alternating_vecs`] builds: every strict alternation of the
/// two parts, starting with either, the one-sided cases included.
pub open spec fn spec_alternating_vecs(a: CombinatorView, b: CombinatorView) -> CombinatorView {
    let abx = spec_series_vecs(spec_concat_vecs(a, b));
    let bax = spec_series_vecs(spec_concat_vecs(b, a));
    let a_bax = spec_concat_vecs(a, bax);
    let b_abx = spec_concat_vecs(b, abx);
    spec_disjunction(seq![a, b, abx, bax, a_bax, b_abx])
}

/// The views of a vector of parsers, in order.
pub open spec fn parser_views(s: Seq<Parser>) -> Seq<CombinatorView> {
    s.map_values(|p: Parser| p@)
}

/// Wraps the parser's value into a one-element list.
pub fn vecify(parser: Parser) -> (r: Parser)
    ensures
        r@ == spec_vecify(parser@),
{
    parser.map(AstMap::WrapList)
}

/// Sequences two list-valued parsers and concatenates their lists.
fn concat_vecs(left: Parser, right: Parser) -> (r: Parser)
    ensures
        r@ == spec_concat_vecs(left@, right@),
{
    left.and_then(right).map(AstMap::JoinPair)
}

/// Sequences two parsers and concatenates their values as one-element
/// lists: the two-element list of both results.
pub fn concat(left: Parser, right: Parser) -> (r: Parser)
    ensures
        r@ == spec_concat_vecs(spec_vecify(left@), spec_vecify(right@)),
{
    concat_vecs(vecify(left), vecify(right))
}

/// One or more repetitions of a list-valued parser, left-associated.
pub fn series_vecs(parser: Parser) -> (r: Parser)
    ensures
        r@ == spec_series_vecs(parser@),
{
    let again = concat_vecs(parser.duplicate(), self_ref());
    lazy(parser.or(again))
}

/// One or more repetitions of the parser, each value wrapped, the results
/// concatenated into one list.
pub fn series(parser: Parser) -> (r: Parser)
    ensures
        r@ == spec_series_vecs(spec_vecify(parser@)),
{
    series_vecs(vecify(parser))
}

/// Exactly `n` repetitions of a list-valued parser, concatenated.
pub fn repeat_n_times_vecs(parser: Parser, n: usize) -> (r: Parser)
    requires
        n >= 1,
    ensures
        r@ == spec_repeat_vecs(parser@, n as nat),
    decreases n,
{
    if n == 1 {
        parser
    } else {
        let front = repeat_n_times_vecs(parser.duplicate(), n - 1);
        concat_vecs(front, parser)
    }
}

/// Exactly `n` repetitions of the parser, the values gathered into one
/// list.
pub fn repeat_n_times(parser: Parser, n: usize) -> (r: Parser)
    requires
        n >= 1,
    ensures
        r@ == spec_repeat_vecs(spec_vecify(parser@), n as nat),
{
    repeat_n_times_vecs(vecify(parser), n)
}

/// One or more blocks of exactly `n` repetitions of a list-valued parser.
pub fn repeat_multiple_of_n_times_vecs(parser: Parser, n: usize) -> (r: Parser)
    requires
        n >= 1,
    ensures
        r@ == spec_series_vecs(spec_repeat_vecs(parser@, n as nat)),
{
    series_vecs(repeat_n_times_vecs(parser, n))
}

/// One or more blocks of exactly `n` repetitions of the parser.
pub fn repeat_multiple_of_n_times(parser: Parser, n: usize) -> (r: Parser)
    requires
        n >= 1,
    ensures
        r@ == spec_series_vecs(spec_repeat_vecs(spec_vecify(parser@), n as nat)),
{
    repeat_multiple_of_n_times_vecs(vecify(parser), n)
}

/// One or more repetitions of `left` then `right` in strict alternation.
fn alternating_inner(left: Parser, right: Parser) -> (r: Parser)
    ensures
        r@ == spec_series_vecs(spec_concat_vecs(left@, right@)),
{
    series_vecs(concat_vecs(left, right))
}

/// Every strict alternation of two list-valued parsers, starting with
/// either, the one-sided cases included.
pub fn alternating_vecs(a: Parser, b: Parser) -> (r: Parser)
    ensures
        r@ == spec_alternating_vecs(a@, b@),
{
    let abx = alternating_inner(a.duplicate(), b.duplicate());
    let bax = alternating_inner(b.duplicate(), a.duplicate());
    let a_bax = concat_vecs(a.duplicate(), bax.duplicate());
    let b_abx = concat_vecs(b.duplicate(), abx.duplicate());
    let mut alternatives: Vec<Parser> = Vec::new();
    alternatives.push(a);
    alternatives.push(b);
    alternatives.push(abx);
    alternatives.push(bax);
    alternatives.push(a_bax);
    alternatives.push(b_abx);
    let r = disjunction(alternatives);
    proof {
        assert(r@ == spec_alternating_vecs(a@, b@)) by {
            reveal_with_fuel(spec_disjunction, 7);
        }
    }
    r
}

/// Every strict alternation of the two parsers, each value wrapped.
pub fn alternating(left: Parser, right: Parser) -> (r: Parser)
    ensures
        r@ == spec_alternating_vecs(spec_vecify(left@), spec_vecify(right@)),
{
    alternating_vecs(vecify(left), vecify(right))
}

/// The alternatives folded under alternation; of none, a combinator that
/// never succeeds.
pub fn disjunction(parsers: Vec<Parser>) -> (r: Parser)
    ensures
        r@ == spec_disjunction(parser_views(parsers@)),
{
    let ghost views = parser_views(parsers@);
    if parsers.len() == 0 {
        pred(TokenPred::Never)
    } else {
        let mut acc = parsers[0].duplicate();
        let mut i: usize = 1;
        proof {
            assert(views.take(1).len() == 1);
            assert(views.take(1)[0] == views[0]);
        }
        while i < parsers.len()
            invariant
                1 <= i <= parsers@.len(),
                views == parser_views(parsers@),
                acc@ == spec_disjunction(views.take(i as int)),
            decreases parsers@.len() - i,
        {
            proof {
                assert(views.take(i as int + 1).drop_last() =~= views.take(i as int));
                assert(views.take(i as int + 1).last() == views[i as int]);
            }
            acc = acc.or(parsers[i].duplicate());
            i += 1;
        }
        proof {
            assert(views.take(views.len() as int) =~= views);
        }
        acc
    }
}

/// The parts folded under list concatenation, each expected to be
/// list-valued; of none, a combinator that consumes nothing and yields the
/// empty list.
pub fn conjoin_vecs(parsers: Vec<Parser>) -> (r: Parser)
    ensures
        r@ == spec_conjoin_vecs(parser_views(parsers@)),
{
    let ghost views = parser_views(parsers@);
    if parsers.len() == 0 {
        epsilon(Ast::Nil)
    } else {
        let mut acc = parsers[0].duplicate();
        let mut i: usize = 1;
        proof {
            assert(views.take(1).len() == 1);
            assert(views.take(1)[0] == views[0]);
        }
        while i < parsers.len()
            invariant
                1 <= i <= parsers@.len(),
                views == parser_views(parsers@),
                acc@ == spec_conjoin_vecs(views.take(i as int)),
            decreases parsers@.len() - i,
        {
            proof {
                assert(views.take(i as int + 1).drop_last() =~= views.take(i as int));
                assert(views.take(i as int + 1).last() == views[i as int]);
            }
            acc = concat_vecs(acc, parsers[i].duplicate());
            i += 1;
        }
        proof {
            assert(views.take(views.len() as int) =~= views);
        }
        acc
    }
}

/// The parts sequenced in order, each value wrapped, the results gathered
/// into one list; of none, a combinator that consumes nothing and yields
/// the empty list.
pub fn conjoin(parsers: Vec<Parser>) -> (r: Parser)
    ensures
        r@ == spec_conjoin_vecs(
            parser_views(parsers@).map_values(|p: CombinatorView| spec_vecify(p)),
        ),
{
    let ghost views = parser_views(parsers@);
    let mut wrapped: Vec<Parser> = Vec::new();
    let mut i: usize = 0;
    while i < parsers.len()
        invariant
            i <= parsers@.len(),
            views == parser_views(parsers@),
            wrapped@.len() == i,
            forall|j: int| 0 <= j < i ==> wrapped@[j]@ == spec_vecify(views[j]),
        decreases parsers@.len() - i,
    {
        wrapped.push(vecify(parsers[i].duplicate()));
        i += 1;
    }
    proof {
        assert(parser_views(wrapped@) =~= views.map_values(|p: CombinatorView| spec_vecify(p)));
    }
    conjoin_vecs(wrapped)
}

} // verus!
