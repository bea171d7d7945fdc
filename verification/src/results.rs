//! What an evaluation hands back: partial derivations, the non-empty
//! derivation set, the error taxonomy, and the left-recursion verdict.

use crate::ast::{Ast, Token};
use vstd::prelude::*;
use vstd::string::StringExecFns;

verus! {

/// Why a parse attempt produced no derivation, or why a completed parse could
/// not be reconciled to a single answer.
///
/// The four `Unexpected*` variants are produced by the primitives: `Token`
/// marks a mismatch while input remained, `EndOfInput` one at its end, and
/// the `Known` spellings name the single expected token where one exists.  `AmbiguousGrammar` and `UnhandledTokens` are
/// produced only by the top-level evaluation modes, never inside the
/// combinator tree.
#[derive(Debug, PartialEq, Eq)]
pub enum ParseError {
    /// Several distinct values each consume the whole input; the printable
    /// form of each is carried.
    AmbiguousGrammar(Vec<String>),
    /// The next token matched no alternative, and no single expected token
    /// can be named.
    UnexpectedTokenProperUnknown,
    /// The next token was not the one the grammar demanded.
    UnexpectedTokenProperKnown { expected: Token, found: Token },
    /// Input ended where the grammar demanded more, with no single expected
    /// token to name.
    UnexpectedEndOfInputProperUnknown,
    /// Input ended where the grammar demanded one more specific token.
    UnexpectedEndOfInputProperKnown { expected: Token },
    /// No derivation consumed the whole input; the shortest unconsumed
    /// suffix is carried.
    UnhandledTokens(Vec<Token>),
}

/// The mathematical shape of a [`ParseError`], with sequences in place of
/// vectors and strings.
#[verifier::ext_equal]
pub enum ParseErrorView {
    AmbiguousGrammar(Seq<Seq<char>>),
    UnexpectedTokenProperUnknown,
    UnexpectedTokenProperKnown { expected: Token, found: Token },
    UnexpectedEndOfInputProperUnknown,
    UnexpectedEndOfInputProperKnown { expected: Token },
    UnhandledTokens(Seq<Token>),
}

impl View for ParseError {
    type V = ParseErrorView;

    open spec fn view(&self) -> ParseErrorView {
        match self {
            ParseError::AmbiguousGrammar(texts) => ParseErrorView::AmbiguousGrammar(
                texts@.map_values(|s: String| s@),
            ),
            ParseError::UnexpectedTokenProperUnknown => ParseErrorView::UnexpectedTokenProperUnknown,
            ParseError::UnexpectedTokenProperKnown { expected, found } => (ParseErrorView::UnexpectedTokenProperKnown {
                expected: *expected,
                found: *found,
            }),
            ParseError::UnexpectedEndOfInputProperUnknown => ParseErrorView::UnexpectedEndOfInputProperUnknown,
            ParseError::UnexpectedEndOfInputProperKnown { expected } => (ParseErrorView::UnexpectedEndOfInputProperKnown {
                expected: *expected,
            }),
            ParseError::UnhandledTokens(toks) => ParseErrorView::UnhandledTokens(toks@),
        }
    }
}

impl ParseError {
    /// An owned copy describing the same error.
    pub fn duplicate(&self) -> (r: ParseError)
        ensures
            r@ == self@,
    {
        match self {
            ParseError::AmbiguousGrammar(texts) => {
                let mut copies: Vec<String> = Vec::new();
                let mut i: usize = 0;
                while i < texts.len()
                    invariant
                        i <= texts.len(),
                        copies@.len() == i,
                        forall|j: int| 0 <= j < i ==> copies@[j]@ == texts@[j]@,
                    decreases texts.len() - i,
                {
                    copies.push(texts[i].clone());
                    i += 1;
                }
                proof {
                    assert(copies@.map_values(|s: String| s@) =~= texts@.map_values(
                        |s: String| s@,
                    ));
                }
                ParseError::AmbiguousGrammar(copies)
            },
            ParseError::UnexpectedTokenProperUnknown => ParseError::UnexpectedTokenProperUnknown,
            ParseError::UnexpectedTokenProperKnown { expected, found } => (ParseError::UnexpectedTokenProperKnown {
                expected: *expected,
                found: *found,
            }),
            ParseError::UnexpectedEndOfInputProperUnknown => ParseError::UnexpectedEndOfInputProperUnknown,
            ParseError::UnexpectedEndOfInputProperKnown { expected } => (ParseError::UnexpectedEndOfInputProperKnown {
                expected: *expected,
            }),
            ParseError::UnhandledTokens(toks) => {
                let mut copies: Vec<Token> = Vec::new();
                let mut i: usize = 0;
                while i < toks.len()
                    invariant
                        i <= toks.len(),
                        copies@ == toks@.take(i as int),
                    decreases toks.len() - i,
                {
                    copies.push(toks[i]);
                    proof {
                        assert(copies@ =~= toks@.take(i as int + 1));
                    }
                    i += 1;
                }
                proof {
                    assert(copies@ =~= toks@);
                }
                ParseError::UnhandledTokens(copies)
            },
        }
    }
}

/// The given pieces joined by a comma and a space.
pub open spec fn spec_joined(s: Seq<Seq<char>>) -> Seq<char>
    decreases s.len(),
{
    if s.len() == 0 {
        Seq::empty()
    } else if s.len() == 1 {
        s[0]
    } else {
        spec_joined(s.drop_last()) + seq![',', ' '] + s.last()
    }
}

/// The human-readable diagnostic for an error: a fixed phrase per variant,
/// with the expected and found tokens in decimal and the carried lists
/// joined in brackets.
pub open spec fn spec_message(e: ParseErrorView) -> Seq<char> {
    match e {
        ParseErrorView::AmbiguousGrammar(texts) => "Grammar permits multiple interpretations: ["@
            + spec_joined(texts) + "]"@,
        ParseErrorView::UnexpectedTokenProperUnknown => "Unexpected token"@,
        ParseErrorView::UnexpectedTokenProperKnown { expected, found } => (
        "Unexpected token, expected: "@ + crate::ast::spec_decimal(expected as nat)
            + ", found: "@ + crate::ast::spec_decimal(found as nat)),
        ParseErrorView::UnexpectedEndOfInputProperUnknown => "Unexpected end of input"@,
        ParseErrorView::UnexpectedEndOfInputProperKnown { expected } => (
        "Unexpected end of input, expected: "@ + crate::ast::spec_decimal(expected as nat)),
        ParseErrorView::UnhandledTokens(toks) => "Unhandled tokens: ["@ + spec_joined(
            toks.map_values(|t: Token| crate::ast::spec_decimal(t as nat)),
        ) + "]"@,
    }
}

impl ParseError {
    /// The human-readable diagnostic; see [`spec_message`].
    #[verifier::loop_isolation(false)]
    pub fn describe(&self) -> (r: String)
        ensures
            r@ == spec_message(self@),
    {
        match self {
            ParseError::AmbiguousGrammar(texts) => {
                let ghost pieces = texts@.map_values(|s: String| s@);
                let mut out = String::from_str("Grammar permits multiple interpretations: [");
                let mut i: usize = 0;
                while i < texts.len()
                    invariant
                        i <= texts@.len(),
                        out@ == "Grammar permits multiple interpretations: ["@ + spec_joined(
                            pieces.take(i as int),
                        ),
                    decreases texts.len() - i,
                {
                    proof {
                        assert(pieces.take(i as int + 1).drop_last() =~= pieces.take(i as int));
                        assert(pieces.take(i as int + 1).last() == pieces[i as int]);
                    }
                    if i > 0 {
                        out.append(", ");
                    }
                    out.append(texts[i].as_str());
                    proof {
                        reveal_strlit(", ");
                        assert(out@ =~= "Grammar permits multiple interpretations: ["@
                            + spec_joined(pieces.take(i as int + 1)));
                    }
                    i += 1;
                }
                out.append("]");
                proof {
                    assert(pieces.take(pieces.len() as int) =~= pieces);
                }
                out
            },
            ParseError::UnexpectedTokenProperUnknown => String::from_str("Unexpected token"),
            ParseError::UnexpectedTokenProperKnown { expected, found } => {
                let mut out = String::from_str("Unexpected token, expected: ");
                crate::ast::push_decimal(*expected, &mut out);
                out.append(", found: ");
                crate::ast::push_decimal(*found, &mut out);
                proof {
                    assert(out@ =~= spec_message(self@));
                }
                out
            },
            ParseError::UnexpectedEndOfInputProperUnknown => String::from_str(
                "Unexpected end of input",
            ),
            ParseError::UnexpectedEndOfInputProperKnown { expected } => {
                let mut out = String::from_str("Unexpected end of input, expected: ");
                crate::ast::push_decimal(*expected, &mut out);
                proof {
                    assert(out@ =~= spec_message(self@));
                }
                out
            },
            ParseError::UnhandledTokens(toks) => {
                let ghost pieces = toks@.map_values(|t: Token| crate::ast::spec_decimal(t as nat));
                let mut out = String::from_str("Unhandled tokens: [");
                let mut i: usize = 0;
                while i < toks.len()
                    invariant
                        i <= toks@.len(),
                        out@ == "Unhandled tokens: ["@ + spec_joined(pieces.take(i as int)),
                    decreases toks.len() - i,
                {
                    proof {
                        assert(pieces.take(i as int + 1).drop_last() =~= pieces.take(i as int));
                        assert(pieces.take(i as int + 1).last() == pieces[i as int]);
                    }
                    if i > 0 {
                        out.append(", ");
                    }
                    crate::ast::push_decimal(toks[i], &mut out);
                    proof {
                        reveal_strlit(", ");
                        assert(out@ =~= "Unhandled tokens: ["@ + spec_joined(
                            pieces.take(i as int + 1),
                        ));
                    }
                    i += 1;
                }
                out.append("]");
                proof {
                    assert(pieces.take(pieces.len() as int) =~= pieces);
                }
                out
            },
        }
    }
}

/// The verdict of the depth-bounded left-recursion analysis: either the
/// bounded search proved the grammar does not re-enter itself without
/// consuming input, or it ran out of depth and carries the chain of debug
/// labels leading to that point.
#[derive(Debug, PartialEq, Eq)]
pub enum LeftRecursionCheck {
    /// The bounded search found no unguarded self-recursion.
    Okay,
    /// The bounded search exhausted its depth; the labels of the labeled
    /// nodes passed on the way are carried, innermost first.
    NotOk(Vec<String>),
}

/// The mathematical shape of a [`LeftRecursionCheck`].
#[verifier::ext_equal]
pub enum LeftRecursionCheckView {
    Okay,
    NotOk(Seq<Seq<char>>),
}

impl View for LeftRecursionCheck {
    type V = LeftRecursionCheckView;

    open spec fn view(&self) -> LeftRecursionCheckView {
        match self {
            LeftRecursionCheck::Okay => LeftRecursionCheckView::Okay,
            LeftRecursionCheck::NotOk(labels) => LeftRecursionCheckView::NotOk(
                labels@.map_values(|s: String| s@),
            ),
        }
    }
}

impl LeftRecursionCheck {
    /// True exactly on the passing verdict.
    pub fn is_ok(&self) -> (r: bool)
        ensures
            r == (self@ is Okay),
    {
        matches!(self, LeftRecursionCheck::Okay)
    }

    /// True exactly on the failing verdict.
    pub fn is_not_ok(&self) -> (r: bool)
        ensures
            r == !(self@ is Okay),
    {
        !self.is_ok()
    }

    /// A failing verdict is kept; a passing one is replaced by what the given
    /// continuation produces.
    pub fn not_ok_or_else<F: FnOnce() -> LeftRecursionCheck>(self, f: F) -> (r: LeftRecursionCheck)
        requires
            self@ is Okay ==> call_requires(f, ()),
        ensures
            !(self@ is Okay) ==> r == self,
            self@ is Okay ==> call_ensures(f, (), r),
    {
        if self.is_not_ok() {
            self
        } else {
            f()
        }
    }
}

/// One candidate way of having consumed a prefix of the input: the value
/// built so far and the index of the first unconsumed token.
#[derive(Debug, PartialEq, Eq)]
pub struct PartialParseResult {
    /// The value built for the consumed prefix.
    pub ast: Ast,
    /// Index into the input of the first unconsumed token; the suffix from
    /// here on is the remainder.  Two results are equal exactly when both
    /// the value and this index agree.
    pub pos: usize,
}

impl PartialParseResult {
    /// Equality of value and remainder position, with the meaning of ghost
    /// `==` carried into executable code.
    pub fn eq_value(&self, other: &PartialParseResult) -> (r: bool)
        ensures
            r == (self == other),
    {
        self.pos == other.pos && self.ast.eq_value(&other.ast)
    }

    /// An owned copy of the same candidate.
    pub fn duplicate(&self) -> (r: PartialParseResult)
        ensures
            r == self,
    {
        PartialParseResult { ast: self.ast.duplicate(), pos: self.pos }
    }
}

/// No two entries of the sequence are equal.
pub open spec fn spec_distinct(s: Seq<PartialParseResult>) -> bool {
    forall|i: int, j: int| 0 <= i < j < s.len() ==> s[i] != s[j]
}

/// The sequence with every repetition of an earlier entry removed; the first
/// occurrence of each entry keeps its place.
pub open spec fn spec_dedup(s: Seq<PartialParseResult>) -> Seq<PartialParseResult>
    decreases s.len(),
{
    if s.len() == 0 {
        Seq::empty()
    } else {
        let rest = spec_dedup(s.drop_last());
        if rest.contains(s.last()) {
            rest
        } else {
            rest.push(s.last())
        }
    }
}

/// Deduplication keeps exactly the entries of the source.
pub proof fn lemma_dedup_contains(s: Seq<PartialParseResult>, x: PartialParseResult)
    ensures
        spec_dedup(s).contains(x) <==> s.contains(x),
    decreases s.len(),
{
    if s.len() > 0 {
        lemma_dedup_contains(s.drop_last(), x);
        let rest = spec_dedup(s.drop_last());
        if s.drop_last().contains(x) {
            let i = choose|i: int| 0 <= i < s.drop_last().len() && s.drop_last()[i] == x;
            assert(s[i] == x);
            assert(s.contains(x));
        }
        if x == s.last() {
            assert(s.contains(x));
            if !rest.contains(x) {
                assert(rest.push(s.last())[rest.len() as int] == x);
                assert(spec_dedup(s).contains(x));
            }
        } else {
            if s.contains(x) {
                let i = choose|i: int| 0 <= i < s.len() && s[i] == x;
                assert(i < s.len() - 1);
                assert(s.drop_last()[i] == x);
                assert(s.drop_last().contains(x));
            }
            if !rest.contains(s.last()) && rest.push(s.last()).contains(x) {
                let i = choose|i: int|
                    0 <= i < rest.push(s.last()).len() && rest.push(s.last())[i] == x;
                assert(i < rest.len());
                assert(rest[i] == x);
                assert(rest.contains(x));
            }
            if rest.contains(x) {
                assert(rest.push(s.last()).contains(x)) by {
                    let i = choose|i: int| 0 <= i < rest.len() && rest[i] == x;
                    assert(rest.push(s.last())[i] == x);
                }
            }
        }
    }
}

/// Deduplication leaves no repetitions.
pub proof fn lemma_dedup_distinct(s: Seq<PartialParseResult>)
    ensures
        spec_distinct(spec_dedup(s)),
        spec_dedup(s).len() <= s.len(),
        spec_dedup(s).len() == 0 <==> s.len() == 0,
    decreases s.len(),
{
    if s.len() > 0 {
        lemma_dedup_distinct(s.drop_last());
        let rest = spec_dedup(s.drop_last());
        if !rest.contains(s.last()) {
            assert forall|i: int, j: int|
                0 <= i < j < rest.push(s.last()).len() implies rest.push(s.last())[i] != rest.push(
                s.last(),
            )[j] by {
                if j == rest.len() {
                    assert(rest.contains(rest[i]));
                }
            }
        }
    }
}

/// An entry of the deduplicated sequence sits somewhere in the source.
pub proof fn lemma_dedup_entries(s: Seq<PartialParseResult>)
    ensures
        forall|i: int| 0 <= i < spec_dedup(s).len() ==> s.contains(#[trigger] spec_dedup(s)[i]),
{
    assert forall|i: int| 0 <= i < spec_dedup(s).len() implies s.contains(
        #[trigger] spec_dedup(s)[i],
    ) by {
        assert(spec_dedup(s).contains(spec_dedup(s)[i]));
        lemma_dedup_contains(s, spec_dedup(s)[i]);
    }
}

/// True on a vector that holds the given candidate.
fn vec_contains(v: &Vec<PartialParseResult>, x: &PartialParseResult) -> (r: bool)
    ensures
        r == v@.contains(*x),
{
    let mut i: usize = 0;
    while i < v.len()
        invariant
            i <= v.len(),
            forall|j: int| 0 <= j < i ==> v@[j] != *x,
        decreases v.len() - i,
    {
        if v[i].eq_value(x) {
            return true;
        }
        i += 1;
    }
    false
}

/// The vector with every repetition of an earlier entry removed; see
/// [`spec_dedup`].
pub fn dedup_candidates(src: &Vec<PartialParseResult>) -> (r: Vec<PartialParseResult>)
    ensures
        r@ == spec_dedup(src@),
{
    let mut out: Vec<PartialParseResult> = Vec::new();
    let mut i: usize = 0;
    while i < src.len()
        invariant
            i <= src.len(),
            out@ == spec_dedup(src@.take(i as int)),
        decreases src.len() - i,
    {
        proof {
            assert(src@.take(i as int + 1).drop_last() =~= src@.take(i as int));
            assert(src@.take(i as int + 1).last() == src@[i as int]);
        }
        if !vec_contains(&out, &src[i]) {
            out.push(src[i].duplicate());
        }
        i += 1;
    }
    proof {
        assert(src@.take(src@.len() as int) =~= src@);
    }
    out
}

/// A non-empty, order-preserving collection of distinct partial derivations:
/// what every successful combinator attempt returns.  Built only through
/// constructors that deduplicate and refuse an empty source, so a value in
/// hand always holds at least one derivation.
#[derive(Debug, PartialEq, Eq)]
pub struct DerivationSet {
    items: Vec<PartialParseResult>,
}

impl View for DerivationSet {
    type V = Seq<PartialParseResult>;

    closed spec fn view(&self) -> Seq<PartialParseResult> {
        self.items@
    }
}

impl DerivationSet {
    /// The invariant every constructed set satisfies: at least one
    /// derivation, and no two equal.
    pub open spec fn wf(&self) -> bool {
        self@.len() >= 1 && spec_distinct(self@)
    }

    /// Wraps a vector already known to satisfy the invariant.
    pub(crate) fn from_vec_unchecked(items: Vec<PartialParseResult>) -> (r: DerivationSet)
        requires
            items@.len() >= 1,
            spec_distinct(items@),
        ensures
            r@ == items@,
            r.wf(),
    {
        DerivationSet { items }
    }

    /// The one fallible constructor: deduplicates the candidates, and fails
    /// exactly when there are none.
    pub fn from_candidates(candidates: &Vec<PartialParseResult>) -> (r: Result<
        DerivationSet,
        (),
    >)
        ensures
            r is Err <==> candidates@.len() == 0,
            r matches Ok(ds) ==> ds@ == spec_dedup(candidates@) && ds.wf(),
    {
        let deduped = dedup_candidates(candidates);
        proof {
            lemma_dedup_distinct(candidates@);
        }
        if deduped.len() == 0 {
            Err(())
        } else {
            Ok(DerivationSet::from_vec_unchecked(deduped))
        }
    }

    /// A set holding the one given derivation.
    pub fn single(d: PartialParseResult) -> (r: DerivationSet)
        ensures
            r@ =~= seq![d],
            r.wf(),
    {
        let mut items: Vec<PartialParseResult> = Vec::new();
        items.push(d);
        DerivationSet::from_vec_unchecked(items)
    }

    /// How many derivations the set holds; always at least one.
    pub fn len(&self) -> (r: usize)
        ensures
            r == self@.len(),
    {
        self.items.len()
    }

    /// The derivation at the given place, in insertion order.
    pub fn get(&self, i: usize) -> (r: &PartialParseResult)
        requires
            i < self@.len(),
        ensures
            *r == self@[i as int],
    {
        &self.items[i]
    }

    /// The derivations, in insertion order.
    pub fn items(&self) -> (r: &Vec<PartialParseResult>)
        ensures
            r@ == self@,
    {
        &self.items
    }

    /// Both sets' derivations, the left set's first, repetitions dropped.
    pub fn merged(self, other: DerivationSet) -> (r: DerivationSet)
        requires
            self.wf(),
            other.wf(),
        ensures
            r@ == spec_dedup(self@ + other@),
            r.wf(),
    {
        let ghost combined: Seq<PartialParseResult> = self@ + other@;
        let mut items = self.items;
        let mut i: usize = 0;
        while i < other.items.len()
            invariant
                i <= other.items.len(),
                items@ == self@ + other@.take(i as int),
            decreases other.items.len() - i,
        {
            items.push(other.items[i].duplicate());
            proof {
                assert(items@ =~= self@ + other@.take(i as int + 1));
            }
            i += 1;
        }
        proof {
            assert(items@ =~= combined);
            lemma_dedup_distinct(combined);
        }
        let deduped = dedup_candidates(&items);
        DerivationSet::from_vec_unchecked(deduped)
    }
}

} // verus!
