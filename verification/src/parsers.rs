//! The parser handle: the value a grammar author holds, with fluent
//! composition and the three evaluation modes.

use crate::ast::{spec_text, Ast, Token};
use crate::combinator::{Combinator, CombinatorView};
use crate::engine::{check_at, env_views, outcome_matches, parse_at, spec_check, spec_parse,
    Outcome};
use crate::funcs::{AstMap, AstPred, AstSplit, TokenPred};
use crate::results::{DerivationSet, LeftRecursionCheck, ParseError, ParseErrorView,
    PartialParseResult};
use vstd::prelude::*;

verus! {

/// A parser: an immutable combinator tree together with the operations to
/// compose it further and to evaluate it against a token sequence.
#[derive(Debug, PartialEq, Eq)]
pub struct Parser {
    node: Combinator,
}

impl View for Parser {
    type V = CombinatorView;

    closed spec fn view(&self) -> CombinatorView {
        self.node@
    }
}

/// The values of every derivation that consumed the whole input, in
/// discovery order.
pub open spec fn spec_complete(s: Seq<PartialParseResult>, n: int) -> Seq<Ast>
    decreases s.len(),
{
    if s.len() == 0 {
        Seq::empty()
    } else {
        let rest = spec_complete(s.drop_last(), n);
        if s.last().pos == n {
            rest.push(s.last().ast)
        } else {
            rest
        }
    }
}

/// The position of the shortest remainder among the derivations: where the
/// derivation that consumed the most stopped — the closest near-miss when
/// none consumed everything.
pub open spec fn spec_closest_pos(s: Seq<PartialParseResult>) -> int
    decreases s.len(),
{
    if s.len() <= 1 {
        if s.len() == 1 {
            s[0].pos as int
        } else {
            0
        }
    } else {
        let m = spec_closest_pos(s.drop_last());
        if s.last().pos > m {
            s.last().pos as int
        } else {
            m
        }
    }
}

/// What the unambiguous evaluation mode yields: nothing when the recursion
/// budget ran out; otherwise the inner error as it stands, or the reconciled
/// answer: the single full-input value, `UnhandledTokens` with the shortest
/// leftover when no derivation consumed everything, and `AmbiguousGrammar`
/// with every full-input value's printable form when several distinct values
/// did.
pub open spec fn spec_parse_unambiguous(c: CombinatorView, toks: Seq<Token>, fuel: nat) -> Option<
    Result<Ast, ParseErrorView>,
> {
    match spec_parse(c, Seq::empty(), toks, 0, fuel) {
        Outcome::OutOfFuel => None,
        Outcome::Fails(e) => Some(Err(e)),
        Outcome::Parses(ds) => {
            let asts = spec_complete(ds, toks.len() as int);
            if asts.len() == 0 {
                Some(Err(ParseErrorView::UnhandledTokens(toks.skip(spec_closest_pos(ds)))))
            } else if asts.len() == 1 {
                Some(Ok(asts[0]))
            } else {
                Some(
                    Err(
                        ParseErrorView::AmbiguousGrammar(
                            asts.map_values(|a: Ast| spec_text(a)),
                        ),
                    ),
                )
            }
        },
    }
}

/// What the all-derivations evaluation mode yields: the values of every
/// full-input derivation, or nothing at all on any failure, the spent
/// recursion budget included.
pub open spec fn spec_parse_all(c: CombinatorView, toks: Seq<Token>, fuel: nat) -> Seq<Ast> {
    match spec_parse(c, Seq::empty(), toks, 0, fuel) {
        Outcome::Parses(ds) => spec_complete(ds, toks.len() as int),
        _ => Seq::empty(),
    }
}

/// How an executable unambiguous-parse result corresponds to the specified
/// one.
pub open spec fn unambiguous_matches(
    r: Option<Result<Ast, ParseError>>,
    o: Option<Result<Ast, ParseErrorView>>,
) -> bool {
    match r {
        None => o is None,
        Some(Ok(a)) => o matches Some(Ok(a2)) && a == a2,
        Some(Err(e)) => o matches Some(Err(m)) && e@ == m,
    }
}

impl Parser {
    /// Raw evaluation: every distinct way this grammar consumes a prefix of
    /// the input, the most informative error when there is none, or `None`
    /// when the recursion budget `fuel` ran out before the answer was known.
    /// A successful set is well formed: non-empty and free of repetitions.
    pub fn parse_inner(&self, tokens: &Vec<Token>, fuel: u64) -> (r: Option<
        Result<DerivationSet, ParseError>,
    >)
        ensures
            outcome_matches(r, spec_parse(self@, Seq::empty(), tokens@, 0, fuel as nat)),
    {
        let env: Vec<&Combinator> = Vec::new();
        proof {
            assert(env_views(env@) =~= Seq::<CombinatorView>::empty());
        }
        parse_at(&self.node, &env, tokens, 0, fuel)
    }

    /// The unambiguous evaluation mode; see [`spec_parse_unambiguous`].
    #[verifier::loop_isolation(false)]
    pub fn parse(&self, tokens: &Vec<Token>, fuel: u64) -> (r: Option<Result<Ast, ParseError>>)
        ensures
            unambiguous_matches(r, spec_parse_unambiguous(self@, tokens@, fuel as nat)),
    {
        let ghost toklen = tokens@.len() as int;
        match self.parse_inner(tokens, fuel) {
            None => None,
            Some(Err(e)) => Some(Err(e)),
            Some(Ok(ds)) => {
                proof {
                    vstd::std_specs::vec::axiom_spec_len(tokens);
                    crate::engine::lemma_parse_invariant(
                        self@,
                        Seq::empty(),
                        tokens@,
                        0,
                        fuel as nat,
                    );
                }
                let ghost dsv = ds@;
                let items = ds.items();
                let n = tokens.len();
                let mut full: Vec<Ast> = Vec::new();
                let mut i: usize = 0;
                while i < items.len()
                    invariant
                        i <= items@.len(),
                        items@ == dsv,
                        full@ == spec_complete(dsv.take(i as int), toklen),
                        n == toklen,
                    decreases items@.len() - i,
                {
                    proof {
                        assert(dsv.take(i as int + 1).drop_last() =~= dsv.take(i as int));
                        assert(dsv.take(i as int + 1).last() == dsv[i as int]);
                    }
                    if items[i].pos == n {
                        full.push(items[i].ast.duplicate());
                    }
                    i += 1;
                }
                proof {
                    assert(dsv.take(dsv.len() as int) =~= dsv);
                }
                if full.len() == 0 {
                    let mut best: usize = items[0].pos;
                    let mut i: usize = 1;
                    proof {
                        assert(dsv.take(1).len() == 1);
                        assert(dsv.take(1)[0] == dsv[0]);
                    }
                    while i < items.len()
                        invariant
                            1 <= i <= items@.len(),
                            items@ == dsv,
                            best as int == spec_closest_pos(dsv.take(i as int)),
                            best <= tokens@.len(),
                        decreases items@.len() - i,
                    {
                        proof {
                            assert(dsv.take(i as int + 1).drop_last() =~= dsv.take(i as int));
                            assert(dsv.take(i as int + 1).last() == dsv[i as int]);
                        }
                        if items[i].pos > best {
                            best = items[i].pos;
                        }
                        i += 1;
                    }
                    proof {
                        assert(dsv.take(dsv.len() as int) =~= dsv);
                    }
                    let mut leftover: Vec<Token> = Vec::new();
                    let mut j: usize = best;
                    while j < tokens.len()
                        invariant
                            best <= j <= tokens@.len(),
                            leftover@ == tokens@.subrange(best as int, j as int),
                        decreases tokens@.len() - j,
                    {
                        leftover.push(tokens[j]);
                        proof {
                            assert(leftover@ =~= tokens@.subrange(best as int, j as int + 1));
                        }
                        j += 1;
                    }
                    proof {
                        assert(leftover@ =~= tokens@.skip(spec_closest_pos(dsv)));
                    }
                    Some(Err(ParseError::UnhandledTokens(leftover)))
                } else if full.len() == 1 {
                    Some(Ok(full[0].duplicate()))
                } else {
                    let ghost fullv = full@;
                    let mut texts: Vec<String> = Vec::new();
                    let mut i: usize = 0;
                    while i < full.len()
                        invariant
                            i <= full@.len(),
                            full@ == fullv,
                            texts@.len() == i,
                            forall|j: int| 0 <= j < i ==> texts@[j]@ == spec_text(fullv[j]),
                        decreases full@.len() - i,
                    {
                        texts.push(full[i].to_text());
                        i += 1;
                    }
                    proof {
                        assert(texts@.map_values(|s: String| s@) =~= fullv.map_values(
                            |a: Ast| spec_text(a),
                        ));
                    }
                    Some(Err(ParseError::AmbiguousGrammar(texts)))
                }
            },
        }
    }

    /// The all-derivations evaluation mode; see [`spec_parse_all`].
    pub fn parse_all(&self, tokens: &Vec<Token>, fuel: u64) -> (r: Vec<Ast>)
        ensures
            r@ == spec_parse_all(self@, tokens@, fuel as nat),
    {
        match self.parse_inner(tokens, fuel) {
            None => Vec::new(),
            Some(Err(_)) => Vec::new(),
            Some(Ok(ds)) => {
                let ghost dsv = ds@;
                let ghost toklen = tokens@.len() as int;
                let items = ds.items();
                let n = tokens.len();
                let mut full: Vec<Ast> = Vec::new();
                let mut i: usize = 0;
                while i < items.len()
                    invariant
                        i <= items@.len(),
                        items@ == dsv,
                        full@ == spec_complete(dsv.take(i as int), toklen),
                        n == toklen,
                    decreases items@.len() - i,
                {
                    proof {
                        assert(dsv.take(i as int + 1).drop_last() =~= dsv.take(i as int));
                        assert(dsv.take(i as int + 1).last() == dsv[i as int]);
                    }
                    if items[i].pos == n {
                        full.push(items[i].ast.duplicate());
                    }
                    i += 1;
                }
                proof {
                    assert(dsv.take(dsv.len() as int) =~= dsv);
                }
                full
            },
        }
    }

    /// The depth-bounded left-recursion analysis, run from the root; see
    /// [`spec_check`].
    pub fn check_left_recursion(&self, depth: usize) -> (r: LeftRecursionCheck)
        ensures
            r@ == spec_check(self@, Seq::empty(), depth as nat),
    {
        let env: Vec<&Combinator> = Vec::new();
        proof {
            assert(env_views(env@) =~= Seq::<CombinatorView>::empty());
        }
        check_at(&self.node, &env, depth)
    }

    /// Alternation: both this parser and `p2` are tried on the same input
    /// and every derivation either finds is kept.
    pub fn or(self, p2: Parser) -> (r: Parser)
        ensures
            r@ == CombinatorView::Choice(Box::new(self@), Box::new(p2@)),
    {
        Parser { node: Combinator::Choice(Box::new(self.node), Box::new(p2.node)) }
    }

    /// Sequencing: this parser first, then `p2` on every remainder it left;
    /// the two values pair up.
    pub fn and_then(self, p2: Parser) -> (r: Parser)
        ensures
            r@ == CombinatorView::Sequence(Box::new(self@), Box::new(p2@)),
    {
        Parser { node: Combinator::Sequence(Box::new(self.node), Box::new(p2.node)) }
    }

    /// Rewrites every derivation's value with the given map.
    pub fn map(self, f: AstMap) -> (r: Parser)
        ensures
            r@ == CombinatorView::Mapped(Box::new(self@), f),
    {
        Parser { node: Combinator::Mapped(Box::new(self.node), f) }
    }

    /// Keeps only derivations whose value passes the test; when none does,
    /// the given error is reported instead.
    pub fn filter(self, f: AstPred, e: ParseError) -> (r: Parser)
        ensures
            r@ == CombinatorView::Filtered(Box::new(self@), f, e@),
    {
        Parser { node: Combinator::Filtered(Box::new(self.node), f, e) }
    }

    /// Expands every derivation's value into zero, one, or many values, all
    /// sharing that derivation's remainder.
    pub fn split_map(self, f: AstSplit) -> (r: Parser)
        ensures
            r@ == CombinatorView::Split(Box::new(self@), f),
    {
        Parser { node: Combinator::Split(Box::new(self.node), f) }
    }

    /// A pass-through wrapper carrying a label; parsing is unchanged, and
    /// the label names this spot in left-recursion verdicts.
    pub fn debug_msg(self, msg: String) -> (r: Parser)
        ensures
            r@ == CombinatorView::Labeled(Box::new(self@), Some(msg@)),
    {
        Parser { node: Combinator::Labeled(Box::new(self.node), Some(msg)) }
    }

    /// A pass-through wrapper without a label; parsing is unchanged.
    pub fn debug(self) -> (r: Parser)
        ensures
            r@ == CombinatorView::Labeled(Box::new(self@), None),
    {
        Parser { node: Combinator::Labeled(Box::new(self.node), None) }
    }

    /// An owned copy of the same parser.
    pub fn duplicate(&self) -> (r: Parser)
        ensures
            r@ == self@,
    {
        Parser { node: self.node.duplicate() }
    }
}

/// Matches exactly the given token and produces it as the value.
pub fn tok(token: Token) -> (r: Parser)
    ensures
        r@ == CombinatorView::Tok(token),
{
    Parser { node: Combinator::Tok(token) }
}

/// Matches the one next token the predicate accepts; the predicate chooses
/// the value.
pub fn pred(predicate: TokenPred) -> (r: Parser)
    ensures
        r@ == CombinatorView::Pred(predicate),
{
    Parser { node: Combinator::Pred(predicate) }
}

/// Consumes nothing and succeeds with the given value.
pub fn epsilon(value: Ast) -> (r: Parser)
    ensures
        r@ == CombinatorView::Epsilon(value),
{
    Parser { node: Combinator::Epsilon(value) }
}

/// The indirection node that makes self-referential grammars expressible:
/// evaluation steps into `body`, and within it [`self_ref`] refers back to
/// this very node.
pub fn lazy(body: Parser) -> (r: Parser)
    ensures
        r@ == CombinatorView::Deferred(Box::new(body@)),
{
    Parser { node: Combinator::Deferred(Box::new(body.node)) }
}

/// A reference to the innermost enclosing [`lazy`] node.
pub fn self_ref() -> (r: Parser)
    ensures
        r@ == CombinatorView::SelfRef(0),
{
    Parser { node: Combinator::SelfRef(0) }
}

/// A reference to the `k`-th enclosing [`lazy`] node, counting from the
/// innermost outwards; `enclosing_ref(0)` is [`self_ref`].
pub fn enclosing_ref(k: usize) -> (r: Parser)
    ensures
        r@ == CombinatorView::SelfRef(k),
{
    Parser { node: Combinator::SelfRef(k) }
}

} // verus!
