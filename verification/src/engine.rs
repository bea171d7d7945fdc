//! The evaluation engine: the meaning of a combinator tree over a token
//! sequence, and the executable interpreter proved to compute it.
//!
//! The meaning is given by [`spec_parse`]: a total function from a grammar,
//! the stack of enclosing deferred bodies, the input, a position and a
//! recursion budget to an [`Outcome`].  The budget is spent only when
//! evaluation steps through an indirection node, so a grammar without
//! indirection never runs out; a genuinely left-recursive grammar runs the
//! budget down and the evaluation reports that instead of looping forever.
//!
//! A choice that finds derivations on both sides keeps their union as it
//! stands.  That every merged derivation consumed something is not a runtime
//! check here: it is a law, proved once for grammars whose branches cannot
//! match emptily ([`lemma_parse_progress`]).

use crate::ast::{Ast, Token};
use crate::combinator::{Combinator, CombinatorView};
use crate::funcs::{spec_apply_map, spec_apply_pred, spec_apply_split, spec_apply_test, AstPred,
    AstSplit};
use crate::results::{spec_dedup, spec_distinct, DerivationSet, LeftRecursionCheck,
    LeftRecursionCheckView, ParseError, ParseErrorView, PartialParseResult};
use vstd::prelude::*;

verus! {

/// What evaluating a combinator at a position yields: every distinct way it
/// consumes a prefix from there, the most informative error when there is no
/// way, or the spent recursion budget.
#[verifier::ext_equal]
pub enum Outcome {
    /// The distinct partial derivations, in discovery order.
    Parses(Seq<PartialParseResult>),
    /// No derivation exists; the most informative error found.
    Fails(ParseErrorView),
    /// The recursion budget ran out before every derivation was found.
    OutOfFuel,
}

/// What crossing one set of left-hand derivations with a right-hand
/// combinator yields: the paired-up derivations together with the first
/// right-hand error met, or the spent budget.
#[verifier::ext_equal]
pub enum CrossOutcome {
    Results(Seq<PartialParseResult>, Option<ParseErrorView>),
    OutOfFuel,
}

/// The derivations of the right-hand part, each paired under the given
/// left-hand value.
pub open spec fn spec_pair_up(a: Ast, s2: Seq<PartialParseResult>) -> Seq<PartialParseResult> {
    s2.map_values(
        |r2: PartialParseResult| PartialParseResult {
            ast: Ast::Pair(Box::new(a), Box::new(r2.ast)),
            pos: r2.pos,
        },
    )
}

/// The derivations whose value passes the test, in order.
pub open spec fn spec_keep(q: AstPred, s: Seq<PartialParseResult>) -> Seq<PartialParseResult>
    decreases s.len(),
{
    if s.len() == 0 {
        Seq::empty()
    } else {
        let rest = spec_keep(q, s.drop_last());
        if spec_apply_test(q, s.last().ast) {
            rest.push(s.last())
        } else {
            rest
        }
    }
}

/// Every derivation's value expanded by the split, each expansion sharing
/// its derivation's remainder, flattened in order.
pub open spec fn spec_flat_split(f: AstSplit, s: Seq<PartialParseResult>) -> Seq<
    PartialParseResult,
>
    decreases s.len(),
{
    if s.len() == 0 {
        Seq::empty()
    } else {
        spec_flat_split(f, s.drop_last()) + spec_apply_split(f, s.last().ast).map_values(
            |a: Ast| PartialParseResult { ast: a, pos: s.last().pos },
        )
    }
}

/// Every way the combinator consumes a prefix of `toks` starting at `pos`.
///
/// `env` is the stack of enclosing deferred bodies, outermost first: stepping
/// into `Deferred(b)` pushes `b`, and `SelfRef(k)` re-enters the body `k`
/// levels up from the innermost, with the stack cut back to that level.
/// Both steps cost one unit of `fuel`; nothing else does.
pub open spec fn spec_parse(
    c: CombinatorView,
    env: Seq<CombinatorView>,
    toks: Seq<Token>,
    pos: int,
    fuel: nat,
) -> Outcome
    decreases fuel, c, 1int,
{
    match c {
        CombinatorView::Tok(t) => if pos < toks.len() {
            if toks[pos] == t {
                Outcome::Parses(
                    seq![PartialParseResult { ast: Ast::Num(t), pos: (pos + 1) as usize }],
                )
            } else {
                Outcome::Fails(
                    ParseErrorView::UnexpectedTokenProperKnown { expected: t, found: toks[pos] },
                )
            }
        } else {
            Outcome::Fails(ParseErrorView::UnexpectedEndOfInputProperKnown { expected: t })
        },
        CombinatorView::Pred(p) => if pos < toks.len() {
            match spec_apply_pred(p, toks[pos]) {
                Some(a) => Outcome::Parses(
                    seq![PartialParseResult { ast: a, pos: (pos + 1) as usize }],
                ),
                None => Outcome::Fails(ParseErrorView::UnexpectedTokenProperUnknown),
            }
        } else {
            Outcome::Fails(ParseErrorView::UnexpectedEndOfInputProperUnknown)
        },
        CombinatorView::Epsilon(a) => Outcome::Parses(
            seq![PartialParseResult { ast: a, pos: pos as usize }],
        ),
        CombinatorView::Sequence(p1, p2) => match spec_parse(*p1, env, toks, pos, fuel) {
            Outcome::OutOfFuel => Outcome::OutOfFuel,
            Outcome::Fails(e) => Outcome::Fails(e),
            Outcome::Parses(ds1) => match spec_cross(*p2, env, toks, ds1, fuel) {
                CrossOutcome::OutOfFuel => Outcome::OutOfFuel,
                CrossOutcome::Results(collected, first_err) => {
                    let dd = spec_dedup(collected);
                    if dd.len() > 0 {
                        Outcome::Parses(dd)
                    } else {
                        match first_err {
                            Some(e) => Outcome::Fails(e),
                            None => Outcome::Fails(ParseErrorView::UnexpectedTokenProperUnknown),
                        }
                    }
                },
            },
        },
        CombinatorView::Choice(p1, p2) => match spec_parse(*p1, env, toks, pos, fuel) {
            Outcome::OutOfFuel => Outcome::OutOfFuel,
            Outcome::Parses(s1) => match spec_parse(*p2, env, toks, pos, fuel) {
                Outcome::OutOfFuel => Outcome::OutOfFuel,
                Outcome::Parses(s2) => Outcome::Parses(spec_dedup(s1 + s2)),
                Outcome::Fails(_) => Outcome::Parses(s1),
            },
            Outcome::Fails(e1) => match spec_parse(*p2, env, toks, pos, fuel) {
                Outcome::OutOfFuel => Outcome::OutOfFuel,
                Outcome::Parses(s2) => Outcome::Parses(s2),
                Outcome::Fails(_) => Outcome::Fails(e1),
            },
        },
        CombinatorView::Mapped(p, m) => match spec_parse(*p, env, toks, pos, fuel) {
            Outcome::OutOfFuel => Outcome::OutOfFuel,
            Outcome::Fails(e) => Outcome::Fails(e),
            Outcome::Parses(ds) => Outcome::Parses(
                spec_dedup(
                    ds.map_values(
                        |d: PartialParseResult| PartialParseResult {
                            ast: spec_apply_map(m, d.ast),
                            pos: d.pos,
                        },
                    ),
                ),
            ),
        },
        CombinatorView::Filtered(p, q, ev) => match spec_parse(*p, env, toks, pos, fuel) {
            Outcome::OutOfFuel => Outcome::OutOfFuel,
            Outcome::Fails(e) => Outcome::Fails(e),
            Outcome::Parses(ds) => {
                let kept = spec_keep(q, ds);
                if kept.len() > 0 {
                    Outcome::Parses(kept)
                } else {
                    Outcome::Fails(ev)
                }
            },
        },
        CombinatorView::Split(p, f) => match spec_parse(*p, env, toks, pos, fuel) {
            Outcome::OutOfFuel => Outcome::OutOfFuel,
            Outcome::Fails(e) => Outcome::Fails(e),
            Outcome::Parses(ds) => {
                let dd = spec_dedup(spec_flat_split(f, ds));
                if dd.len() > 0 {
                    Outcome::Parses(dd)
                } else {
                    Outcome::Fails(ParseErrorView::UnexpectedTokenProperUnknown)
                }
            },
        },
        CombinatorView::Deferred(b) => if fuel == 0 {
            Outcome::OutOfFuel
        } else {
            spec_parse(*b, env.push(*b), toks, pos, (fuel - 1) as nat)
        },
        CombinatorView::SelfRef(k) => if k >= env.len() {
            Outcome::Fails(ParseErrorView::UnexpectedTokenProperUnknown)
        } else if fuel == 0 {
            Outcome::OutOfFuel
        } else {
            let i = env.len() - 1 - k;
            spec_parse(env[i as int], env.take(i as int + 1), toks, pos, (fuel - 1) as nat)
        },
        CombinatorView::Labeled(p, _) => spec_parse(*p, env, toks, pos, fuel),
    }
}

/// For each left-hand derivation in order: the right-hand combinator runs on
/// its remainder; successes pair up under the left-hand value, and the first
/// error met is remembered.
pub open spec fn spec_cross(
    p2: CombinatorView,
    env: Seq<CombinatorView>,
    toks: Seq<Token>,
    ds: Seq<PartialParseResult>,
    fuel: nat,
) -> CrossOutcome
    decreases fuel, p2, ds.len() + 2,
{
    if ds.len() == 0 {
        CrossOutcome::Results(Seq::empty(), None)
    } else {
        match spec_parse(p2, env, toks, ds[0].pos as int, fuel) {
            Outcome::OutOfFuel => CrossOutcome::OutOfFuel,
            Outcome::Parses(s2) => match spec_cross(p2, env, toks, ds.skip(1), fuel) {
                CrossOutcome::OutOfFuel => CrossOutcome::OutOfFuel,
                CrossOutcome::Results(coll, err) => CrossOutcome::Results(
                    spec_pair_up(ds[0].ast, s2) + coll,
                    err,
                ),
            },
            Outcome::Fails(e) => match spec_cross(p2, env, toks, ds.skip(1), fuel) {
                CrossOutcome::OutOfFuel => CrossOutcome::OutOfFuel,
                CrossOutcome::Results(coll, _) => CrossOutcome::Results(coll, Some(e)),
            },
        }
    }
}

/// The labels a labeled node contributes to a failing verdict.
pub open spec fn spec_label_path(msg: Option<Seq<char>>) -> Seq<Seq<char>> {
    match msg {
        Some(m) => seq![m],
        None => Seq::empty(),
    }
}

/// The depth-bounded, token-free left-recursion analysis.
///
/// The verdict is failing when the bounded search ran out of depth before it
/// could rule out re-entering an indirection without consuming input.  Only
/// the first part of a sequence is entered: the second cannot be reached at
/// the same position without the first consuming something.  A choice at
/// depth zero passes outright; every other composite at depth zero fails.
pub open spec fn spec_check(
    c: CombinatorView,
    env: Seq<CombinatorView>,
    depth: nat,
) -> LeftRecursionCheckView
    decreases depth, c,
{
    match c {
        CombinatorView::Tok(_) => LeftRecursionCheckView::Okay,
        CombinatorView::Pred(_) => LeftRecursionCheckView::Okay,
        CombinatorView::Epsilon(_) => LeftRecursionCheckView::Okay,
        CombinatorView::Sequence(p1, _) => if depth == 0 {
            LeftRecursionCheckView::NotOk(Seq::empty())
        } else {
            spec_check(*p1, env, (depth - 1) as nat)
        },
        CombinatorView::Choice(p1, p2) => if depth == 0 {
            LeftRecursionCheckView::Okay
        } else {
            let r1 = spec_check(*p1, env, (depth - 1) as nat);
            if !(r1 is Okay) {
                r1
            } else {
                spec_check(*p2, env, (depth - 1) as nat)
            }
        },
        CombinatorView::Mapped(p, _) => if depth == 0 {
            LeftRecursionCheckView::NotOk(Seq::empty())
        } else {
            spec_check(*p, env, (depth - 1) as nat)
        },
        CombinatorView::Filtered(p, _, _) => if depth == 0 {
            LeftRecursionCheckView::NotOk(Seq::empty())
        } else {
            spec_check(*p, env, (depth - 1) as nat)
        },
        CombinatorView::Split(p, _) => if depth == 0 {
            LeftRecursionCheckView::NotOk(Seq::empty())
        } else {
            spec_check(*p, env, (depth - 1) as nat)
        },
        CombinatorView::Deferred(b) => if depth == 0 {
            LeftRecursionCheckView::NotOk(Seq::empty())
        } else {
            spec_check(*b, env.push(*b), (depth - 1) as nat)
        },
        CombinatorView::SelfRef(k) => if k >= env.len() {
            LeftRecursionCheckView::Okay
        } else if depth == 0 {
            LeftRecursionCheckView::NotOk(Seq::empty())
        } else {
            let i = env.len() - 1 - k;
            spec_check(env[i as int], env.take(i as int + 1), (depth - 1) as nat)
        },
        CombinatorView::Labeled(p, msg) => if depth == 0 {
            LeftRecursionCheckView::NotOk(spec_label_path(msg))
        } else {
            match spec_check(*p, env, (depth - 1) as nat) {
                LeftRecursionCheckView::NotOk(path) => LeftRecursionCheckView::NotOk(
                    path + spec_label_path(msg),
                ),
                LeftRecursionCheckView::Okay => LeftRecursionCheckView::Okay,
            }
        },
    }
}

/// The views of a stack of borrowed combinators.
pub open spec fn env_views(env: Seq<&Combinator>) -> Seq<CombinatorView> {
    Seq::new(env.len(), |i: int| env[i]@)
}

/// What stays after a filter sits somewhere in the source, no repetition is
/// introduced, and the source's order is kept.
pub proof fn lemma_keep_entries(q: AstPred, s: Seq<PartialParseResult>)
    ensures
        forall|x: PartialParseResult| spec_keep(q, s).contains(x) ==> s.contains(x),
        spec_distinct(s) ==> spec_distinct(spec_keep(q, s)),
        forall|x: PartialParseResult|
            s.contains(x) && spec_apply_test(q, x.ast) ==> spec_keep(q, s).contains(x),
        forall|x: PartialParseResult|
            spec_keep(q, s).contains(x) ==> spec_apply_test(q, #[trigger] x.ast),
    decreases s.len(),
{
    if s.len() > 0 {
        lemma_keep_entries(q, s.drop_last());
        let rest = spec_keep(q, s.drop_last());
        assert forall|x: PartialParseResult|
            spec_keep(q, s).contains(x) implies spec_apply_test(q, #[trigger] x.ast) by {
            let i = choose|i: int| 0 <= i < spec_keep(q, s).len() && spec_keep(q, s)[i] == x;
            if spec_apply_test(q, s.last().ast) && i == rest.len() {
            } else {
                assert(rest[i] == x);
                assert(rest.contains(x));
            }
        }
        assert forall|x: PartialParseResult| spec_keep(q, s).contains(x) implies s.contains(x) by {
            let i = choose|i: int| 0 <= i < spec_keep(q, s).len() && spec_keep(q, s)[i] == x;
            if spec_apply_test(q, s.last().ast) {
                if i < rest.len() {
                    assert(rest.contains(x));
                    lemma_contains_in_extension(s, x);
                } else {
                    assert(x == s.last());
                    assert(s[s.len() - 1] == x);
                }
            } else {
                assert(rest.contains(x));
                lemma_contains_in_extension(s, x);
            }
        }
        if spec_distinct(s) {
            assert(spec_distinct(s.drop_last())) by {
                assert forall|i: int, j: int|
                    0 <= i < j < s.drop_last().len() implies s.drop_last()[i] != s.drop_last()[j] by {
                    assert(s[i] == s.drop_last()[i]);
                    assert(s[j] == s.drop_last()[j]);
                }
            }
            if spec_apply_test(q, s.last().ast) {
                assert forall|i: int, j: int|
                    0 <= i < j < spec_keep(q, s).len() implies spec_keep(q, s)[i] != spec_keep(
                    q,
                    s,
                )[j] by {
                    if j == rest.len() {
                        assert(rest.contains(rest[i]));
                        assert(s.drop_last().contains(rest[i]));
                        let m = choose|m: int|
                            0 <= m < s.drop_last().len() && s.drop_last()[m] == rest[i];
                        assert(s[m] == rest[i]);
                        assert(s[m] != s[s.len() - 1]);
                    }
                }
            }
        }
        assert forall|x: PartialParseResult|
            s.contains(x) && spec_apply_test(q, x.ast) implies spec_keep(q, s).contains(x) by {
            let i = choose|i: int| 0 <= i < s.len() && s[i] == x;
            if i < s.len() - 1 {
                assert(s.drop_last()[i] == x);
                assert(s.drop_last().contains(x));
                assert(rest.contains(x));
                let m = choose|m: int| 0 <= m < rest.len() && rest[m] == x;
                assert(spec_keep(q, s)[m] == x);
            } else {
                assert(x == s.last());
                assert(spec_keep(q, s)[spec_keep(q, s).len() - 1] == x);
            }
        }
    }
}

/// An entry of a sequence is still an entry after the sequence grew at the
/// back.
proof fn lemma_contains_in_extension(s: Seq<PartialParseResult>, x: PartialParseResult)
    requires
        s.len() > 0,
        s.drop_last().contains(x),
    ensures
        s.contains(x),
{
    let i = choose|i: int| 0 <= i < s.drop_last().len() && s.drop_last()[i] == x;
    assert(s[i] == x);
}

/// Splitting never moves a derivation: every expanded entry keeps the
/// remainder of the entry it came from.
pub proof fn lemma_flat_split_bounds(f: AstSplit, s: Seq<PartialParseResult>, lo: int, hi: int)
    requires
        forall|i: int| 0 <= i < s.len() ==> lo <= #[trigger] s[i].pos <= hi,
    ensures
        forall|i: int|
            0 <= i < spec_flat_split(f, s).len() ==> lo <= #[trigger] spec_flat_split(f, s)[i].pos
                <= hi,
    decreases s.len(),
{
    if s.len() > 0 {
        lemma_flat_split_bounds(f, s.drop_last(), lo, hi);
        assert(lo <= s[s.len() - 1].pos <= hi);
        assert forall|i: int|
            0 <= i < spec_flat_split(f, s).len() implies lo <= #[trigger] spec_flat_split(
            f,
            s,
        )[i].pos <= hi by {
            let front = spec_flat_split(f, s.drop_last());
            if i >= front.len() {
                assert(spec_flat_split(f, s)[i].pos == s.last().pos);
            }
        }
    }
}

/// Position bounds survive deduplication.
pub proof fn lemma_dedup_bounds(s: Seq<PartialParseResult>, lo: int, hi: int)
    requires
        forall|i: int| 0 <= i < s.len() ==> lo <= #[trigger] s[i].pos <= hi,
    ensures
        forall|i: int|
            0 <= i < spec_dedup(s).len() ==> lo <= #[trigger] spec_dedup(s)[i].pos <= hi,
{
    crate::results::lemma_dedup_entries(s);
    assert forall|i: int|
        0 <= i < spec_dedup(s).len() implies lo <= #[trigger] spec_dedup(s)[i].pos <= hi by {
        assert(s.contains(spec_dedup(s)[i]));
        let j = choose|j: int| 0 <= j < s.len() && s[j] == spec_dedup(s)[i];
        assert(lo <= s[j].pos <= hi);
    }
}

/// The non-empty invariant, and with it the sanity of every successful
/// evaluation: a success holds at least one derivation, no derivation twice,
/// and every derivation's remainder lies between the start position and the
/// end of the input.
pub proof fn lemma_parse_invariant(
    c: CombinatorView,
    env: Seq<CombinatorView>,
    toks: Seq<Token>,
    pos: int,
    fuel: nat,
)
    requires
        0 <= pos <= toks.len(),
        toks.len() <= usize::MAX,
    ensures
        spec_parse(c, env, toks, pos, fuel) matches Outcome::Parses(ds) ==> {
            &&& ds.len() >= 1
            &&& spec_distinct(ds)
            &&& forall|i: int| 0 <= i < ds.len() ==> pos <= #[trigger] ds[i].pos <= toks.len()
        },
    decreases fuel, c, 1int,
{
    match c {
        CombinatorView::Tok(_) => {},
        CombinatorView::Pred(_) => {},
        CombinatorView::Epsilon(_) => {},
        CombinatorView::Sequence(p1, p2) => {
            lemma_parse_invariant(*p1, env, toks, pos, fuel);
            if let Outcome::Parses(ds1) = spec_parse(*p1, env, toks, pos, fuel) {
                lemma_cross_invariant(*p2, env, toks, ds1, pos, fuel);
                if let CrossOutcome::Results(coll, _) = spec_cross(*p2, env, toks, ds1, fuel) {
                    crate::results::lemma_dedup_distinct(coll);
                    lemma_dedup_bounds(coll, pos, toks.len() as int);
                }
            }
        },
        CombinatorView::Choice(p1, p2) => {
            lemma_parse_invariant(*p1, env, toks, pos, fuel);
            lemma_parse_invariant(*p2, env, toks, pos, fuel);
            if let Outcome::Parses(s1) = spec_parse(*p1, env, toks, pos, fuel) {
                if let Outcome::Parses(s2) = spec_parse(*p2, env, toks, pos, fuel) {
                    crate::results::lemma_dedup_distinct(s1 + s2);
                    lemma_dedup_bounds(s1 + s2, pos, toks.len() as int);
                    assert((s1 + s2).len() > 0);
                }
            }
        },
        CombinatorView::Mapped(p, m) => {
            lemma_parse_invariant(*p, env, toks, pos, fuel);
            if let Outcome::Parses(ds) = spec_parse(*p, env, toks, pos, fuel) {
                let mapped = ds.map_values(
                    |d: PartialParseResult| PartialParseResult {
                        ast: spec_apply_map(m, d.ast),
                        pos: d.pos,
                    },
                );
                crate::results::lemma_dedup_distinct(mapped);
                lemma_dedup_bounds(mapped, pos, toks.len() as int);
            }
        },
        CombinatorView::Filtered(p, q, _) => {
            lemma_parse_invariant(*p, env, toks, pos, fuel);
            if let Outcome::Parses(ds) = spec_parse(*p, env, toks, pos, fuel) {
                lemma_keep_entries(q, ds);
                let kept = spec_keep(q, ds);
                assert forall|i: int| 0 <= i < kept.len() implies pos <= #[trigger] kept[i].pos
                    <= toks.len() by {
                    assert(kept.contains(kept[i]));
                    assert(ds.contains(kept[i]));
                    let j = choose|j: int| 0 <= j < ds.len() && ds[j] == kept[i];
                    assert(pos <= ds[j].pos <= toks.len());
                }
            }
        },
        CombinatorView::Split(p, f) => {
            lemma_parse_invariant(*p, env, toks, pos, fuel);
            if let Outcome::Parses(ds) = spec_parse(*p, env, toks, pos, fuel) {
                let flat = spec_flat_split(f, ds);
                lemma_flat_split_bounds(f, ds, pos, toks.len() as int);
                crate::results::lemma_dedup_distinct(flat);
                lemma_dedup_bounds(flat, pos, toks.len() as int);
            }
        },
        CombinatorView::Deferred(b) => {
            if fuel > 0 {
                lemma_parse_invariant(*b, env.push(*b), toks, pos, (fuel - 1) as nat);
            }
        },
        CombinatorView::SelfRef(k) => {
            if k < env.len() && fuel > 0 {
                let i = env.len() - 1 - k;
                lemma_parse_invariant(
                    env[i as int],
                    env.take(i as int + 1),
                    toks,
                    pos,
                    (fuel - 1) as nat,
                );
            }
        },
        CombinatorView::Labeled(p, _) => {
            lemma_parse_invariant(*p, env, toks, pos, fuel);
        },
    }
}

/// The companion invariant for crossing: collected derivations stay within
/// the given bounds, and an empty collection from a non-empty left-hand set
/// always carries an error to report.
pub proof fn lemma_cross_invariant(
    p2: CombinatorView,
    env: Seq<CombinatorView>,
    toks: Seq<Token>,
    ds: Seq<PartialParseResult>,
    pos: int,
    fuel: nat,
)
    requires
        0 <= pos <= toks.len(),
        toks.len() <= usize::MAX,
        forall|i: int| 0 <= i < ds.len() ==> pos <= #[trigger] ds[i].pos <= toks.len(),
    ensures
        spec_cross(p2, env, toks, ds, fuel) matches CrossOutcome::Results(coll, err) ==> {
            &&& forall|i: int| 0 <= i < coll.len() ==> pos <= #[trigger] coll[i].pos <= toks.len()
            &&& (ds.len() > 0 && coll.len() == 0 ==> err is Some)
        },
    decreases fuel, p2, ds.len() + 2,
{
    if ds.len() > 0 {
        assert(pos <= ds[0].pos <= toks.len());
        lemma_parse_invariant(p2, env, toks, ds[0].pos as int, fuel);
        assert(forall|i: int|
            0 <= i < ds.skip(1).len() ==> pos <= #[trigger] ds.skip(1)[i].pos <= toks.len());
        lemma_cross_invariant(p2, env, toks, ds.skip(1), pos, fuel);
        match spec_parse(p2, env, toks, ds[0].pos as int, fuel) {
            Outcome::Parses(s2) => {
                if let CrossOutcome::Results(coll, _) = spec_cross(p2, env, toks, ds.skip(1), fuel) {
                    let paired = spec_pair_up(ds[0].ast, s2);
                    assert(paired.len() == s2.len());
                    assert forall|i: int|
                        0 <= i < (paired + coll).len() implies pos <= #[trigger] (paired
                        + coll)[i].pos <= toks.len() by {
                        if i < paired.len() {
                            assert(paired[i].pos == s2[i].pos);
                            assert(ds[0].pos <= s2[i].pos <= toks.len());
                        }
                    }
                    assert((paired + coll).len() > 0);
                }
            },
            _ => {},
        }
    }
}

/// The progress invariant: a consuming grammar, run with a stack of
/// consuming deferred bodies, never leaves a derivation that consumed
/// nothing — every remainder starts strictly beyond the start position.
pub proof fn lemma_parse_progress(
    c: CombinatorView,
    env: Seq<CombinatorView>,
    toks: Seq<Token>,
    pos: int,
    fuel: nat,
)
    requires
        0 <= pos <= toks.len(),
        toks.len() <= usize::MAX,
        crate::combinator::spec_consuming(c),
        forall|k: int| 0 <= k < env.len() ==> crate::combinator::spec_consuming(#[trigger] env[k]),
    ensures
        spec_parse(c, env, toks, pos, fuel) matches Outcome::Parses(ds) ==> forall|i: int|
            0 <= i < ds.len() ==> #[trigger] ds[i].pos > pos,
    decreases fuel, c, 1int,
{
    match c {
        CombinatorView::Tok(_) => {},
        CombinatorView::Pred(_) => {},
        CombinatorView::Epsilon(_) => {},
        CombinatorView::Sequence(p1, p2) => {
            lemma_parse_invariant(*p1, env, toks, pos, fuel);
            if crate::combinator::spec_consuming(*p1) {
                lemma_parse_progress(*p1, env, toks, pos, fuel);
            }
            if let Outcome::Parses(ds1) = spec_parse(*p1, env, toks, pos, fuel) {
                lemma_cross_progress(*p2, env, toks, ds1, pos, fuel);
                lemma_cross_invariant(*p2, env, toks, ds1, pos, fuel);
                if let CrossOutcome::Results(coll, _) = spec_cross(*p2, env, toks, ds1, fuel) {
                    lemma_dedup_bounds(coll, pos + 1, toks.len() as int);
                }
            }
        },
        CombinatorView::Choice(p1, p2) => {
            lemma_parse_invariant(*p1, env, toks, pos, fuel);
            lemma_parse_invariant(*p2, env, toks, pos, fuel);
            lemma_parse_progress(*p1, env, toks, pos, fuel);
            lemma_parse_progress(*p2, env, toks, pos, fuel);
            if let Outcome::Parses(s1) = spec_parse(*p1, env, toks, pos, fuel) {
                if let Outcome::Parses(s2) = spec_parse(*p2, env, toks, pos, fuel) {
                    lemma_dedup_bounds(s1 + s2, pos + 1, toks.len() as int);
                }
            }
        },
        CombinatorView::Mapped(p, m) => {
            lemma_parse_invariant(*p, env, toks, pos, fuel);
            lemma_parse_progress(*p, env, toks, pos, fuel);
            if let Outcome::Parses(ds) = spec_parse(*p, env, toks, pos, fuel) {
                let mapped = ds.map_values(
                    |d: PartialParseResult| PartialParseResult {
                        ast: spec_apply_map(m, d.ast),
                        pos: d.pos,
                    },
                );
                lemma_dedup_bounds(mapped, pos + 1, toks.len() as int);
            }
        },
        CombinatorView::Filtered(p, q, _) => {
            lemma_parse_invariant(*p, env, toks, pos, fuel);
            lemma_parse_progress(*p, env, toks, pos, fuel);
            if let Outcome::Parses(ds) = spec_parse(*p, env, toks, pos, fuel) {
                lemma_keep_entries(q, ds);
                let kept = spec_keep(q, ds);
                assert forall|i: int| 0 <= i < kept.len() implies #[trigger] kept[i].pos > pos by {
                    assert(kept.contains(kept[i]));
                    assert(ds.contains(kept[i]));
                    let j = choose|j: int| 0 <= j < ds.len() && ds[j] == kept[i];
                    assert(ds[j].pos > pos);
                }
            }
        },
        CombinatorView::Split(p, f) => {
            lemma_parse_invariant(*p, env, toks, pos, fuel);
            lemma_parse_progress(*p, env, toks, pos, fuel);
            if let Outcome::Parses(ds) = spec_parse(*p, env, toks, pos, fuel) {
                let flat = spec_flat_split(f, ds);
                lemma_flat_split_bounds(f, ds, pos + 1, toks.len() as int);
                lemma_dedup_bounds(flat, pos + 1, toks.len() as int);
            }
        },
        CombinatorView::Deferred(b) => {
            if fuel > 0 {
                assert(forall|k: int|
                    0 <= k < env.push(*b).len() ==> crate::combinator::spec_consuming(
                        #[trigger] env.push(*b)[k],
                    ));
                lemma_parse_progress(*b, env.push(*b), toks, pos, (fuel - 1) as nat);
            }
        },
        CombinatorView::SelfRef(k) => {
            if k < env.len() && fuel > 0 {
                let i = env.len() - 1 - k;
                assert(crate::combinator::spec_consuming(env[i as int]));
                assert(forall|m: int|
                    0 <= m < env.take(i as int + 1).len() ==> crate::combinator::spec_consuming(
                        #[trigger] env.take(i as int + 1)[m],
                    ));
                lemma_parse_progress(
                    env[i as int],
                    env.take(i as int + 1),
                    toks,
                    pos,
                    (fuel - 1) as nat,
                );
            }
        },
        CombinatorView::Labeled(p, _) => {
            lemma_parse_progress(*p, env, toks, pos, fuel);
        },
    }
}

/// The companion progress fact for crossing: when either the right-hand
/// part is consuming or every left-hand derivation already made progress,
/// every collected pairing sits strictly beyond the start position.
proof fn lemma_cross_progress(
    p2: CombinatorView,
    env: Seq<CombinatorView>,
    toks: Seq<Token>,
    ds: Seq<PartialParseResult>,
    pos: int,
    fuel: nat,
)
    requires
        0 <= pos <= toks.len(),
        toks.len() <= usize::MAX,
        forall|i: int| 0 <= i < ds.len() ==> pos <= #[trigger] ds[i].pos <= toks.len(),
        forall|k: int| 0 <= k < env.len() ==> crate::combinator::spec_consuming(#[trigger] env[k]),
        crate::combinator::spec_consuming(p2) || (forall|i: int|
            0 <= i < ds.len() ==> #[trigger] ds[i].pos > pos),
    ensures
        spec_cross(p2, env, toks, ds, fuel) matches CrossOutcome::Results(coll, _) ==> forall|
            i: int,
        |
            0 <= i < coll.len() ==> #[trigger] coll[i].pos > pos,
    decreases fuel, p2, ds.len() + 2,
{
    if ds.len() > 0 {
        assert(pos <= ds[0].pos <= toks.len());
        lemma_parse_invariant(p2, env, toks, ds[0].pos as int, fuel);
        if crate::combinator::spec_consuming(p2) {
            lemma_parse_progress(p2, env, toks, ds[0].pos as int, fuel);
        }
        assert(forall|i: int|
            0 <= i < ds.skip(1).len() ==> pos <= #[trigger] ds.skip(1)[i].pos <= toks.len());
        if !crate::combinator::spec_consuming(p2) {
            assert(forall|i: int| 0 <= i < ds.skip(1).len() ==> #[trigger] ds.skip(1)[i].pos > pos);
        }
        lemma_cross_progress(p2, env, toks, ds.skip(1), pos, fuel);
        match spec_parse(p2, env, toks, ds[0].pos as int, fuel) {
            Outcome::Parses(s2) => {
                if let CrossOutcome::Results(coll, _) = spec_cross(p2, env, toks, ds.skip(1), fuel) {
                    let paired = spec_pair_up(ds[0].ast, s2);
                    assert forall|i: int|
                        0 <= i < (paired + coll).len() implies #[trigger] (paired + coll)[i].pos
                        > pos by {
                        if i < paired.len() {
                            assert(paired[i].pos == s2[i].pos);
                            if crate::combinator::spec_consuming(p2) {
                                assert(s2[i].pos > ds[0].pos);
                            } else {
                                assert(ds[0].pos > pos);
                                assert(s2[i].pos >= ds[0].pos);
                            }
                        }
                    }
                }
            },
            _ => {},
        }
    }
}

/// A grammar without indirection nodes or self-references never spends
/// recursion budget: its evaluation is the same whatever the budget, and
/// never reports the budget spent.
pub proof fn lemma_rec_free_total(
    c: CombinatorView,
    env: Seq<CombinatorView>,
    toks: Seq<Token>,
    pos: int,
    fuel: nat,
)
    requires
        crate::combinator::spec_rec_free(c),
    ensures
        !(spec_parse(c, env, toks, pos, fuel) is OutOfFuel),
    decreases fuel, c, 1int,
{
    match c {
        CombinatorView::Sequence(p1, p2) => {
            lemma_rec_free_total(*p1, env, toks, pos, fuel);
            if let Outcome::Parses(ds1) = spec_parse(*p1, env, toks, pos, fuel) {
                lemma_cross_rec_free_total(*p2, env, toks, ds1, fuel);
            }
        },
        CombinatorView::Choice(p1, p2) => {
            lemma_rec_free_total(*p1, env, toks, pos, fuel);
            lemma_rec_free_total(*p2, env, toks, pos, fuel);
        },
        CombinatorView::Mapped(p, _) => {
            lemma_rec_free_total(*p, env, toks, pos, fuel);
        },
        CombinatorView::Filtered(p, _, _) => {
            lemma_rec_free_total(*p, env, toks, pos, fuel);
        },
        CombinatorView::Split(p, _) => {
            lemma_rec_free_total(*p, env, toks, pos, fuel);
        },
        CombinatorView::Labeled(p, _) => {
            lemma_rec_free_total(*p, env, toks, pos, fuel);
        },
        _ => {},
    }
}

proof fn lemma_cross_rec_free_total(
    p2: CombinatorView,
    env: Seq<CombinatorView>,
    toks: Seq<Token>,
    ds: Seq<PartialParseResult>,
    fuel: nat,
)
    requires
        crate::combinator::spec_rec_free(p2),
    ensures
        !(spec_cross(p2, env, toks, ds, fuel) is OutOfFuel),
    decreases fuel, p2, ds.len() + 2,
{
    if ds.len() > 0 {
        lemma_rec_free_total(p2, env, toks, ds[0].pos as int, fuel);
        lemma_cross_rec_free_total(p2, env, toks, ds.skip(1), fuel);
    }
}

/// How an executable evaluation result corresponds to the specified
/// outcome: fuel exhaustion, a well-formed derivation set with the specified
/// derivations, or the specified error.
pub open spec fn outcome_matches(r: Option<Result<DerivationSet, ParseError>>, o: Outcome) -> bool {
    match r {
        None => o is OutOfFuel,
        Some(Ok(ds)) => o matches Outcome::Parses(s) && ds@ == s && ds.wf(),
        Some(Err(e)) => o matches Outcome::Fails(m) && e@ == m,
    }
}

/// How an executable crossing result corresponds to the specified one.
pub open spec fn cross_matches(
    r: Option<(Vec<PartialParseResult>, Option<ParseError>)>,
    o: CrossOutcome,
) -> bool {
    match r {
        None => o is OutOfFuel,
        Some((coll, err)) => o matches CrossOutcome::Results(c2, e2) && coll@ == c2 && (match (
            err,
            e2,
        ) {
            (None, None) => true,
            (Some(e), Some(m)) => e@ == m,
            (None, Some(_)) => false,
            (Some(_), None) => false,
        }),
    }
}

/// The stack with one more body on top.
fn env_extended<'a>(env: &Vec<&'a Combinator>, extra: &'a Combinator) -> (r: Vec<&'a Combinator>)
    ensures
        env_views(r@) == env_views(env@).push(extra@),
{
    let mut out: Vec<&'a Combinator> = Vec::new();
    let mut i: usize = 0;
    while i < env.len()
        invariant
            i <= env@.len(),
            out@.len() == i,
            forall|j: int| 0 <= j < i ==> out@[j] == env@[j],
        decreases env@.len() - i,
    {
        out.push(env[i]);
        i += 1;
    }
    out.push(extra);
    proof {
        assert(env_views(out@) =~= env_views(env@).push(extra@));
    }
    out
}

/// The stack cut back to its first `n` bodies.
fn env_prefix<'a>(env: &Vec<&'a Combinator>, n: usize) -> (r: Vec<&'a Combinator>)
    requires
        n <= env@.len(),
    ensures
        env_views(r@) == env_views(env@).take(n as int),
{
    let mut out: Vec<&'a Combinator> = Vec::new();
    let mut i: usize = 0;
    while i < n
        invariant
            i <= n <= env@.len(),
            out@.len() == i,
            forall|j: int| 0 <= j < i ==> out@[j] == env@[j],
        decreases n - i,
    {
        out.push(env[i]);
        i += 1;
    }
    proof {
        assert(env_views(out@) =~= env_views(env@).take(n as int));
    }
    out
}

/// Evaluates a combinator over the input from the given position, with the
/// given stack of enclosing deferred bodies and recursion budget; computes
/// exactly what [`spec_parse`] specifies.
#[verifier::loop_isolation(false)]
pub(crate) fn parse_at<'a>(
    c: &'a Combinator,
    env: &Vec<&'a Combinator>,
    toks: &Vec<Token>,
    pos: usize,
    fuel: u64,
) -> (r: Option<Result<DerivationSet, ParseError>>)
    requires
        pos <= toks@.len(),
    ensures
        outcome_matches(r, spec_parse(c@, env_views(env@), toks@, pos as int, fuel as nat)),
    decreases fuel, c, 1int,
{
    match c {
        Combinator::Tok(t) => {
            if pos < toks.len() {
                let found = toks[pos];
                if found == *t {
                    Some(
                        Ok(
                            DerivationSet::single(
                                PartialParseResult { ast: Ast::Num(*t), pos: pos + 1 },
                            ),
                        ),
                    )
                } else {
                    Some(Err(ParseError::UnexpectedTokenProperKnown { expected: *t, found }))
                }
            } else {
                Some(Err(ParseError::UnexpectedEndOfInputProperKnown { expected: *t }))
            }
        },
        Combinator::Pred(p) => {
            if pos < toks.len() {
                match p.apply(toks[pos]) {
                    Some(a) => Some(
                        Ok(DerivationSet::single(PartialParseResult { ast: a, pos: pos + 1 })),
                    ),
                    None => Some(Err(ParseError::UnexpectedTokenProperUnknown)),
                }
            } else {
                Some(Err(ParseError::UnexpectedEndOfInputProperUnknown))
            }
        },
        Combinator::Epsilon(a) => Some(
            Ok(DerivationSet::single(PartialParseResult { ast: a.duplicate(), pos })),
        ),
        Combinator::Sequence(p1, p2) => {
            match parse_at(&**p1, env, toks, pos, fuel) {
                None => None,
                Some(Err(e)) => Some(Err(e)),
                Some(Ok(ds1)) => {
                    proof {
                        vstd::std_specs::vec::axiom_spec_len(toks);
                        lemma_parse_invariant(
                            (**p1)@,
                            env_views(env@),
                            toks@,
                            pos as int,
                            fuel as nat,
                        );
                        assert(ds1@.skip(0) =~= ds1@);
                    }
                    match cross_at(&**p2, env, toks, ds1.items(), 0, fuel) {
                        None => None,
                        Some((collected, first_err)) => {
                            proof {
                                assert(ds1@.skip(0) =~= ds1@);
                                crate::results::lemma_dedup_distinct(collected@);
                            }
                            match DerivationSet::from_candidates(&collected) {
                                Ok(out) => Some(Ok(out)),
                                Err(_) => {
                                    proof {
                                        crate::results::lemma_dedup_distinct(collected@);
                                    }
                                    match first_err {
                                        Some(e) => Some(Err(e)),
                                        None => Some(Err(ParseError::UnexpectedTokenProperUnknown)),
                                    }
                                },
                            }
                        },
                    }
                },
            }
        },
        Combinator::Choice(p1, p2) => {
            match parse_at(&**p1, env, toks, pos, fuel) {
                None => None,
                Some(Ok(s1)) => match parse_at(&**p2, env, toks, pos, fuel) {
                    None => None,
                    Some(Ok(s2)) => Some(Ok(s1.merged(s2))),
                    Some(Err(_)) => Some(Ok(s1)),
                },
                Some(Err(e1)) => match parse_at(&**p2, env, toks, pos, fuel) {
                    None => None,
                    Some(Ok(s2)) => Some(Ok(s2)),
                    Some(Err(_)) => Some(Err(e1)),
                },
            }
        },
        Combinator::Mapped(p, m) => {
            match parse_at(&**p, env, toks, pos, fuel) {
                None => None,
                Some(Err(e)) => Some(Err(e)),
                Some(Ok(ds)) => {
                    let ghost dsv = ds@;
                    let ghost mv = *m;
                    let items = ds.items();
                    let mut mapped: Vec<PartialParseResult> = Vec::new();
                    let mut i: usize = 0;
                    while i < items.len()
                        invariant
                            i <= items@.len(),
                            items@ == dsv,
                            mapped@.len() == i,
                            forall|j: int|
                                0 <= j < i ==> mapped@[j] == (PartialParseResult {
                                    ast: spec_apply_map(mv, dsv[j].ast),
                                    pos: dsv[j].pos,
                                }),
                        decreases items@.len() - i,
                    {
                        let new_ast = m.apply(items[i].ast.duplicate());
                        let new_pos = items[i].pos;
                        mapped.push(PartialParseResult { ast: new_ast, pos: new_pos });
                        i += 1;
                    }
                    proof {
                        assert(mapped@ =~= dsv.map_values(
                            |d: PartialParseResult| PartialParseResult {
                                ast: spec_apply_map(mv, d.ast),
                                pos: d.pos,
                            },
                        ));
                    }
                    match DerivationSet::from_candidates(&mapped) {
                        Ok(out) => Some(Ok(out)),
                        Err(_) => {
                            proof {
                                vstd::std_specs::vec::axiom_spec_len(toks);
                                lemma_parse_invariant(
                                    (**p)@,
                                    env_views(env@),
                                    toks@,
                                    pos as int,
                                    fuel as nat,
                                );
                                assert(false);
                            }
                            None
                        },
                    }
                },
            }
        },
        Combinator::Filtered(p, q, ev) => {
            match parse_at(&**p, env, toks, pos, fuel) {
                None => None,
                Some(Err(e)) => Some(Err(e)),
                Some(Ok(ds)) => {
                    let ghost dsv = ds@;
                    let ghost qv = *q;
                    let items = ds.items();
                    let mut kept: Vec<PartialParseResult> = Vec::new();
                    let mut i: usize = 0;
                    while i < items.len()
                        invariant
                            i <= items@.len(),
                            items@ == dsv,
                            kept@ == spec_keep(qv, dsv.take(i as int)),
                        decreases items@.len() - i,
                    {
                        proof {
                            assert(dsv.take(i as int + 1).drop_last() =~= dsv.take(i as int));
                            assert(dsv.take(i as int + 1).last() == dsv[i as int]);
                        }
                        if q.apply(&items[i].ast) {
                            kept.push(items[i].duplicate());
                        }
                        i += 1;
                    }
                    proof {
                        assert(dsv.take(dsv.len() as int) =~= dsv);
                    }
                    if kept.len() == 0 {
                        Some(Err(ev.duplicate()))
                    } else {
                        proof {
                            vstd::std_specs::vec::axiom_spec_len(toks);
                            lemma_parse_invariant(
                                (**p)@,
                                env_views(env@),
                                toks@,
                                pos as int,
                                fuel as nat,
                            );
                            lemma_keep_entries(qv, dsv);
                        }
                        Some(Ok(DerivationSet::from_vec_unchecked(kept)))
                    }
                },
            }
        },
        Combinator::Split(p, f) => {
            match parse_at(&**p, env, toks, pos, fuel) {
                None => None,
                Some(Err(e)) => Some(Err(e)),
                Some(Ok(ds)) => {
                    let ghost dsv = ds@;
                    let ghost fv = *f;
                    let items = ds.items();
                    let mut flat: Vec<PartialParseResult> = Vec::new();
                    let mut i: usize = 0;
                    while i < items.len()
                        invariant
                            i <= items@.len(),
                            items@ == dsv,
                            flat@ == spec_flat_split(fv, dsv.take(i as int)),
                        decreases items@.len() - i,
                    {
                        let vals = f.apply(items[i].ast.duplicate());
                        let here_pos = items[i].pos;
                        let ghost flat0 = flat@;
                        let mut j: usize = 0;
                        while j < vals.len()
                            invariant
                                j <= vals@.len(),
                                flat@.len() == flat0.len() + j,
                                forall|m: int| 0 <= m < flat0.len() ==> flat@[m] == flat0[m],
                                forall|m: int|
                                    0 <= m < j ==> flat@[flat0.len() + m] == (PartialParseResult {
                                        ast: vals@[m],
                                        pos: here_pos,
                                    }),
                            decreases vals@.len() - j,
                        {
                            flat.push(PartialParseResult { ast: vals[j].duplicate(), pos: here_pos });
                            j += 1;
                        }
                        proof {
                            assert(dsv.take(i as int + 1).drop_last() =~= dsv.take(i as int));
                            assert(dsv.take(i as int + 1).last() == dsv[i as int]);
                            assert(flat@ =~= spec_flat_split(fv, dsv.take(i as int + 1)));
                        }
                        i += 1;
                    }
                    proof {
                        assert(dsv.take(dsv.len() as int) =~= dsv);
                        crate::results::lemma_dedup_distinct(flat@);
                    }
                    match DerivationSet::from_candidates(&flat) {
                        Ok(out) => Some(Ok(out)),
                        Err(_) => Some(Err(ParseError::UnexpectedTokenProperUnknown)),
                    }
                },
            }
        },
        Combinator::Deferred(b) => {
            if fuel == 0 {
                None
            } else {
                let env2 = env_extended(env, &**b);
                parse_at(&**b, &env2, toks, pos, fuel - 1)
            }
        },
        Combinator::SelfRef(k) => {
            if *k >= env.len() {
                Some(Err(ParseError::UnexpectedTokenProperUnknown))
            } else if fuel == 0 {
                None
            } else {
                let i = env.len() - 1 - *k;
                let target: &'a Combinator = env[i];
                let env2 = env_prefix(env, i + 1);
                proof {
                    assert(env_views(env@)[i as int] == target@);
                }
                parse_at(target, &env2, toks, pos, fuel - 1)
            }
        },
        Combinator::Labeled(p, _) => parse_at(&**p, env, toks, pos, fuel),
    }
}

/// Runs the right-hand combinator on the remainder of every derivation from
/// `from` onwards; computes exactly what [`spec_cross`] specifies.
#[verifier::loop_isolation(false)]
fn cross_at<'a>(
    p2: &'a Combinator,
    env: &Vec<&'a Combinator>,
    toks: &Vec<Token>,
    ds: &Vec<PartialParseResult>,
    from: usize,
    fuel: u64,
) -> (r: Option<(Vec<PartialParseResult>, Option<ParseError>)>)
    requires
        from <= ds@.len(),
        forall|i: int| from <= i < ds@.len() ==> #[trigger] ds@[i].pos <= toks@.len(),
    ensures
        cross_matches(
            r,
            spec_cross(p2@, env_views(env@), toks@, ds@.skip(from as int), fuel as nat),
        ),
    decreases fuel, p2, ds@.len() - from + 2,
{
    let ghost tail = ds@.skip(from as int);
    if from == ds.len() {
        proof {
            assert(tail =~= Seq::<PartialParseResult>::empty());
        }
        Some((Vec::new(), None))
    } else {
        proof {
            assert(tail[0] == ds@[from as int]);
            assert(tail.skip(1) =~= ds@.skip(from as int + 1));
        }
        let head_pos = ds[from].pos;
        match parse_at(p2, env, toks, head_pos, fuel) {
            None => None,
            Some(Ok(s2)) => {
                match cross_at(p2, env, toks, ds, from + 1, fuel) {
                    None => None,
                    Some((rest_coll, err)) => {
                        let ghost head_ast = ds@[from as int].ast;
                        let ghost s2v = s2@;
                        let s2items = s2.items();
                        let mut coll: Vec<PartialParseResult> = Vec::new();
                        let mut j: usize = 0;
                        while j < s2items.len()
                            invariant
                                j <= s2items@.len(),
                                s2items@ == s2v,
                                coll@.len() == j,
                                forall|m: int|
                                    0 <= m < j ==> coll@[m] == (PartialParseResult {
                                        ast: Ast::Pair(
                                            Box::new(head_ast),
                                            Box::new(s2v[m].ast),
                                        ),
                                        pos: s2v[m].pos,
                                    }),
                            decreases s2items@.len() - j,
                        {
                            let paired_ast = Ast::Pair(
                                Box::new(ds[from].ast.duplicate()),
                                Box::new(s2items[j].ast.duplicate()),
                            );
                            let paired_pos = s2items[j].pos;
                            coll.push(PartialParseResult { ast: paired_ast, pos: paired_pos });
                            j += 1;
                        }
                        proof {
                            assert(coll@ =~= spec_pair_up(head_ast, s2v));
                        }
                        let mut rest = rest_coll;
                        coll.append(&mut rest);
                        Some((coll, err))
                    },
                }
            },
            Some(Err(e)) => {
                match cross_at(p2, env, toks, ds, from + 1, fuel) {
                    None => None,
                    Some((rest_coll, _)) => Some((rest_coll, Some(e))),
                }
            },
        }
    }
}

/// The depth-bounded left-recursion analysis over a combinator tree;
/// computes exactly what [`spec_check`] specifies.
#[verifier::loop_isolation(false)]
pub(crate) fn check_at<'a>(c: &'a Combinator, env: &Vec<&'a Combinator>, depth: usize) -> (r:
    LeftRecursionCheck)
    ensures
        r@ == spec_check(c@, env_views(env@), depth as nat),
    decreases depth, c,
{
    match c {
        Combinator::Tok(_) => LeftRecursionCheck::Okay,
        Combinator::Pred(_) => LeftRecursionCheck::Okay,
        Combinator::Epsilon(_) => LeftRecursionCheck::Okay,
        Combinator::Sequence(p1, _) => {
            if depth == 0 {
                let empty_path: Vec<String> = Vec::new();
                proof {
                    assert(empty_path@.map_values(|s: String| s@) =~= Seq::<Seq<char>>::empty());
                }
                LeftRecursionCheck::NotOk(empty_path)
            } else {
                check_at(&**p1, env, depth - 1)
            }
        },
        Combinator::Choice(p1, p2) => {
            if depth == 0 {
                LeftRecursionCheck::Okay
            } else {
                let r1 = check_at(&**p1, env, depth - 1);
                if r1.is_not_ok() {
                    r1
                } else {
                    check_at(&**p2, env, depth - 1)
                }
            }
        },
        Combinator::Mapped(p, _) => {
            if depth == 0 {
                let empty_path: Vec<String> = Vec::new();
                proof {
                    assert(empty_path@.map_values(|s: String| s@) =~= Seq::<Seq<char>>::empty());
                }
                LeftRecursionCheck::NotOk(empty_path)
            } else {
                check_at(&**p, env, depth - 1)
            }
        },
        Combinator::Filtered(p, _, _) => {
            if depth == 0 {
                let empty_path: Vec<String> = Vec::new();
                proof {
                    assert(empty_path@.map_values(|s: String| s@) =~= Seq::<Seq<char>>::empty());
                }
                LeftRecursionCheck::NotOk(empty_path)
            } else {
                check_at(&**p, env, depth - 1)
            }
        },
        Combinator::Split(p, _) => {
            if depth == 0 {
                let empty_path: Vec<String> = Vec::new();
                proof {
                    assert(empty_path@.map_values(|s: String| s@) =~= Seq::<Seq<char>>::empty());
                }
                LeftRecursionCheck::NotOk(empty_path)
            } else {
                check_at(&**p, env, depth - 1)
            }
        },
        Combinator::Deferred(b) => {
            if depth == 0 {
                let empty_path: Vec<String> = Vec::new();
                proof {
                    assert(empty_path@.map_values(|s: String| s@) =~= Seq::<Seq<char>>::empty());
                }
                LeftRecursionCheck::NotOk(empty_path)
            } else {
                let env2 = env_extended(env, &**b);
                check_at(&**b, &env2, depth - 1)
            }
        },
        Combinator::SelfRef(k) => {
            if *k >= env.len() {
                LeftRecursionCheck::Okay
            } else if depth == 0 {
                let empty_path: Vec<String> = Vec::new();
                proof {
                    assert(empty_path@.map_values(|s: String| s@) =~= Seq::<Seq<char>>::empty());
                }
                LeftRecursionCheck::NotOk(empty_path)
            } else {
                let i = env.len() - 1 - *k;
                let target: &'a Combinator = env[i];
                let env2 = env_prefix(env, i + 1);
                proof {
                    assert(env_views(env@)[i as int] == target@);
                }
                check_at(target, &env2, depth - 1)
            }
        },
        Combinator::Labeled(p, msg) => {
            if depth == 0 {
                let mut path: Vec<String> = Vec::new();
                if let Some(m) = msg {
                    path.push(m.clone());
                }
                proof {
                    assert(path@.map_values(|s: String| s@) =~= spec_label_path(
                        match msg {
                            Some(s) => Some(s@),
                            None => None,
                        },
                    ));
                }
                LeftRecursionCheck::NotOk(path)
            } else {
                match check_at(&**p, env, depth - 1) {
                    LeftRecursionCheck::NotOk(inner_path) => {
                        let ghost inner0 = inner_path@;
                        let mut path = inner_path;
                        if let Some(m) = msg {
                            path.push(m.clone());
                        }
                        proof {
                            assert(path@.map_values(|s: String| s@) =~= inner0.map_values(
                                |s: String| s@,
                            ) + spec_label_path(
                                match msg {
                                    Some(s) => Some(s@),
                                    None => None,
                                },
                            ));
                        }
                        LeftRecursionCheck::NotOk(path)
                    },
                    LeftRecursionCheck::Okay => LeftRecursionCheck::Okay,
                }
            }
        },
    }
}

} // verus!
