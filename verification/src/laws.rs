//! The engine's laws: properties that hold of every grammar and input,
//! stated over the evaluation specification and proved once and for all.

use crate::ast::{Ast, Token};
use crate::combinator::{spec_consuming, CombinatorView};
use crate::engine::{lemma_keep_entries, lemma_parse_invariant, lemma_parse_progress, spec_check,
    spec_cross, spec_keep, spec_pair_up, spec_parse, CrossOutcome, Outcome};
use crate::funcs::{spec_apply_test, AstPred};
use crate::parsers::spec_complete;
use crate::results::{spec_dedup, LeftRecursionCheckView, ParseErrorView, PartialParseResult};
use vstd::prelude::*;

verus! {

/// The non-empty invariant: whatever the grammar and the input, a successful
/// evaluation holds at least one derivation — an empty success never occurs.
pub proof fn law_success_nonempty(c: CombinatorView, toks: Seq<Token>, fuel: nat)
    requires
        toks.len() <= usize::MAX,
    ensures
        spec_parse(c, Seq::empty(), toks, 0, fuel) matches Outcome::Parses(ds) ==> ds.len() >= 1,
{
    lemma_parse_invariant(c, Seq::empty(), toks, 0, fuel);
}

/// The progress invariant for alternation: when both branches of a choice
/// between consuming grammars succeed on the same input, every derivation of
/// the choice leaves a remainder strictly shorter than that input.  A
/// grammar with an empty-match branch is excluded: such a branch can succeed
/// without consuming anything.
pub proof fn law_alternation_progress(
    p1: CombinatorView,
    p2: CombinatorView,
    toks: Seq<Token>,
    pos: int,
    fuel: nat,
)
    requires
        0 <= pos <= toks.len(),
        toks.len() <= usize::MAX,
        spec_consuming(p1),
        spec_consuming(p2),
        spec_parse(p1, Seq::empty(), toks, pos, fuel) is Parses,
        spec_parse(p2, Seq::empty(), toks, pos, fuel) is Parses,
    ensures
        spec_parse(
            CombinatorView::Choice(Box::new(p1), Box::new(p2)),
            Seq::empty(),
            toks,
            pos,
            fuel,
        ) matches Outcome::Parses(ds) ==> forall|i: int|
            0 <= i < ds.len() ==> toks.len() - #[trigger] ds[i].pos < toks.len() - pos,
{
    let c = CombinatorView::Choice(Box::new(p1), Box::new(p2));
    assert(spec_consuming(c));
    lemma_parse_progress(c, Seq::empty(), toks, pos, fuel);
}

/// Sequence cross-product completeness, at the smallest interesting size:
/// when the first part yields exactly the derivations `a` then `b`, the
/// second part yields exactly `x` from `a`'s remainder and fails from `b`'s
/// remainder, the sequence succeeds with exactly the one pairing of `a` and
/// `x` — it neither comes up empty nor reports the error.
pub proof fn law_sequence_cross_product(
    p1: CombinatorView,
    p2: CombinatorView,
    toks: Seq<Token>,
    pos: int,
    fuel: nat,
    a: PartialParseResult,
    b: PartialParseResult,
    x: PartialParseResult,
)
    requires
        0 <= pos <= toks.len(),
        toks.len() <= usize::MAX,
        spec_parse(p1, Seq::empty(), toks, pos, fuel) == Outcome::Parses(seq![a, b]),
        spec_parse(p2, Seq::empty(), toks, a.pos as int, fuel) == Outcome::Parses(seq![x]),
        spec_parse(p2, Seq::empty(), toks, b.pos as int, fuel) is Fails,
    ensures
        spec_parse(
            CombinatorView::Sequence(Box::new(p1), Box::new(p2)),
            Seq::empty(),
            toks,
            pos,
            fuel,
        ) == Outcome::Parses(
            seq![
                PartialParseResult {
                    ast: Ast::Pair(Box::new(a.ast), Box::new(x.ast)),
                    pos: x.pos,
                },
            ],
        ),
{
    let ds1 = seq![a, b];
    let env = Seq::<CombinatorView>::empty();
    let paired = PartialParseResult { ast: Ast::Pair(Box::new(a.ast), Box::new(x.ast)), pos: x.pos };
    assert(ds1.skip(1) =~= seq![b]);
    assert(seq![b].skip(1) =~= Seq::<PartialParseResult>::empty());
    assert(spec_cross(p2, env, toks, Seq::empty(), fuel) == CrossOutcome::Results(
        Seq::<PartialParseResult>::empty(),
        None::<ParseErrorView>,
    ));
    let tail_out = spec_cross(p2, env, toks, seq![b], fuel);
    assert(tail_out matches CrossOutcome::Results(coll, err) && coll.len() == 0 && err is Some);
    let whole = spec_cross(p2, env, toks, ds1, fuel);
    assert(spec_pair_up(a.ast, seq![x]) =~= seq![paired]);
    assert(whole matches CrossOutcome::Results(coll, _) && coll =~= seq![paired]);
    if let CrossOutcome::Results(coll, _) = whole {
        assert(spec_dedup(coll.drop_last()) =~= Seq::<PartialParseResult>::empty());
        assert(spec_dedup(coll) =~= seq![paired]);
    }
}

/// The filter round-trip: over an input where the inner grammar succeeds,
/// the filtered grammar succeeds with exactly the derivations whose value
/// passes the test when at least one does, and fails with exactly the
/// configured error when none does.
pub proof fn law_filter_round_trip(
    p: CombinatorView,
    q: AstPred,
    e: ParseErrorView,
    toks: Seq<Token>,
    pos: int,
    fuel: nat,
)
    requires
        0 <= pos <= toks.len(),
        toks.len() <= usize::MAX,
        spec_parse(p, Seq::empty(), toks, pos, fuel) is Parses,
    ensures
        spec_parse(p, Seq::empty(), toks, pos, fuel) matches Outcome::Parses(ds) ==> match spec_parse(
            CombinatorView::Filtered(Box::new(p), q, e),
            Seq::empty(),
            toks,
            pos,
            fuel,
        ) {
            Outcome::Parses(kept) => forall|d: PartialParseResult|
                #[trigger] kept.contains(d) <==> ds.contains(d) && spec_apply_test(q, d.ast),
            Outcome::Fails(err) => err == e && forall|d: PartialParseResult|
                ds.contains(d) ==> !spec_apply_test(q, #[trigger] d.ast),
            Outcome::OutOfFuel => false,
        },
{
    if let Outcome::Parses(ds) = spec_parse(p, Seq::empty(), toks, pos, fuel) {
        lemma_keep_entries(q, ds);
        let kept = spec_keep(q, ds);
        if kept.len() > 0 {
            assert(forall|d: PartialParseResult|
                #[trigger] kept.contains(d) <==> ds.contains(d) && spec_apply_test(q, d.ast));
        } else {
            assert forall|d: PartialParseResult|
                ds.contains(d) implies !spec_apply_test(q, #[trigger] d.ast) by {
                if spec_apply_test(q, d.ast) {
                    assert(kept.contains(d));
                }
            }
        }
    }
}

/// The grammar of an unguarded left recursion: a deferred body that starts
/// by re-entering itself before consuming anything.
pub open spec fn spec_left_recursive(x: Token) -> CombinatorView {
    CombinatorView::Deferred(
        Box::new(
            CombinatorView::Sequence(
                Box::new(CombinatorView::SelfRef(0)),
                Box::new(CombinatorView::Tok(x)),
            ),
        ),
    )
}

/// The right-recursive counterpart: the self-reference sits behind a token
/// that must be consumed first.
pub open spec fn spec_right_recursive(x: Token) -> CombinatorView {
    CombinatorView::Deferred(
        Box::new(
            CombinatorView::Sequence(
                Box::new(CombinatorView::Tok(x)),
                Box::new(CombinatorView::SelfRef(0)),
            ),
        ),
    )
}

proof fn left_recursive_body_flagged(x: Token, depth: nat)
    ensures
        !(spec_check(
            CombinatorView::Sequence(
                Box::new(CombinatorView::SelfRef(0)),
                Box::new(CombinatorView::Tok(x)),
            ),
            seq![
                CombinatorView::Sequence(
                    Box::new(CombinatorView::SelfRef(0)),
                    Box::new(CombinatorView::Tok(x)),
                ),
            ],
            depth,
        ) is Okay),
    decreases depth,
{
    let body = CombinatorView::Sequence(
        Box::new(CombinatorView::SelfRef(0)),
        Box::new(CombinatorView::Tok(x)),
    );
    let env = seq![body];
    if depth == 0 {
        assert(spec_check(body, env, depth) == LeftRecursionCheckView::NotOk(
            Seq::<Seq<char>>::empty(),
        ));
    } else {
        let r1 = spec_check(CombinatorView::SelfRef(0), env, (depth - 1) as nat);
        assert(spec_check(body, env, depth) == r1);
        if depth == 1 {
            assert(r1 == LeftRecursionCheckView::NotOk(Seq::<Seq<char>>::empty()));
        } else {
            assert(env.take(1) =~= env);
            left_recursive_body_flagged(x, (depth - 2) as nat);
            assert(r1 == spec_check(env[0], env.take(1), (depth - 2) as nat));
        }
    }
}

/// Left-recursion detection: the bounded analysis flags the unguarded
/// left-recursive grammar at every depth from one upwards.
pub proof fn law_left_recursion_flagged(x: Token, depth: nat)
    requires
        depth >= 1,
    ensures
        !(spec_check(spec_left_recursive(x), Seq::empty(), depth) is Okay),
{
    let body = CombinatorView::Sequence(
        Box::new(CombinatorView::SelfRef(0)),
        Box::new(CombinatorView::Tok(x)),
    );
    assert(Seq::<CombinatorView>::empty().push(body) =~= seq![body]);
    left_recursive_body_flagged(x, (depth - 1) as nat);
}

/// Left-recursion detection, the other direction: the analysis passes the
/// right-recursive counterpart at every depth from two upwards — one step
/// to open the indirection, one to walk into the sequence's first part.
pub proof fn law_right_recursion_passes(x: Token, depth: nat)
    requires
        depth >= 2,
    ensures
        spec_check(spec_right_recursive(x), Seq::empty(), depth) is Okay,
{
    let body = CombinatorView::Sequence(
        Box::new(CombinatorView::Tok(x)),
        Box::new(CombinatorView::SelfRef(0)),
    );
    let env = seq![body];
    assert(Seq::<CombinatorView>::empty().push(body) =~= seq![body]);
    assert(spec_check(spec_right_recursive(x), Seq::empty(), depth) == spec_check(
        body,
        env,
        (depth - 1) as nat,
    ));
    assert(spec_check(body, env, (depth - 1) as nat) == spec_check(
        CombinatorView::Tok(x),
        env,
        (depth - 2) as nat,
    ));
    assert(spec_check(CombinatorView::Tok(x), env, (depth - 2) as nat) is Okay);
}

/// Among derivations that consumed the whole input, the values are pairwise
/// distinct, and each is the value of one such derivation.
proof fn lemma_complete_values(s: Seq<PartialParseResult>, n: int)
    requires
        crate::results::spec_distinct(s),
    ensures
        forall|i: int|
            0 <= i < spec_complete(s, n).len() ==> exists|j: int|
                0 <= j < s.len() && s[j].pos == n && s[j].ast == #[trigger] spec_complete(s, n)[i],
        forall|i: int, k: int|
            0 <= i < k < spec_complete(s, n).len() ==> spec_complete(s, n)[i] != spec_complete(
                s,
                n,
            )[k],
    decreases s.len(),
{
    if s.len() > 0 {
        assert(crate::results::spec_distinct(s.drop_last())) by {
            assert forall|i: int, j: int|
                0 <= i < j < s.drop_last().len() implies s.drop_last()[i] != s.drop_last()[j] by {
                assert(s[i] == s.drop_last()[i]);
                assert(s[j] == s.drop_last()[j]);
            }
        }
        lemma_complete_values(s.drop_last(), n);
        let rest = spec_complete(s.drop_last(), n);
        assert forall|i: int|
            0 <= i < spec_complete(s, n).len() implies exists|j: int|
                0 <= j < s.len() && s[j].pos == n && s[j].ast == #[trigger] spec_complete(
                    s,
                    n,
                )[i] by {
            if i < rest.len() {
                let j = choose|j: int|
                    0 <= j < s.drop_last().len() && s.drop_last()[j].pos == n
                        && s.drop_last()[j].ast == rest[i];
                assert(s[j].pos == n && s[j].ast == spec_complete(s, n)[i]);
            } else {
                assert(s[s.len() - 1].pos == n && s[s.len() - 1].ast == spec_complete(s, n)[i]);
            }
        }
        if s.last().pos == n {
            assert forall|i: int, k: int|
                0 <= i < k < spec_complete(s, n).len() implies spec_complete(s, n)[i]
                != spec_complete(s, n)[k] by {
                if k == rest.len() {
                    if spec_complete(s, n)[i] == s.last().ast {
                        let j = choose|j: int|
                            0 <= j < s.drop_last().len() && s.drop_last()[j].pos == n
                                && s.drop_last()[j].ast == rest[i];
                        assert(s[j] == s[s.len() - 1]);
                    }
                }
            }
        }
    }
}

/// How ambiguity is counted: among the derivations of a successful
/// evaluation that consumed the whole input, no value appears twice.  Two
/// different derivation paths agreeing on the value are one interpretation,
/// so the unambiguous evaluation mode reports ambiguity exactly when two or
/// more distinct full-input values exist.
pub proof fn law_ambiguity_counts_distinct_values(c: CombinatorView, toks: Seq<Token>, fuel: nat)
    requires
        toks.len() <= usize::MAX,
    ensures
        spec_parse(c, Seq::empty(), toks, 0, fuel) matches Outcome::Parses(ds) ==> forall|
            i: int,
            k: int,
        |
            0 <= i < k < spec_complete(ds, toks.len() as int).len() ==> spec_complete(
                ds,
                toks.len() as int,
            )[i] != spec_complete(ds, toks.len() as int)[k],
{
    lemma_parse_invariant(c, Seq::empty(), toks, 0, fuel);
    if let Outcome::Parses(ds) = spec_parse(c, Seq::empty(), toks, 0, fuel) {
        lemma_complete_values(ds, toks.len() as int);
    }
}

} // verus!
