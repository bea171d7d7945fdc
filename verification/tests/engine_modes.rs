//! The combinator algebra and the three evaluation modes: sequencing's
//! cross-product, alternation's union, map, filter, split, and how the
//! unambiguous mode reconciles full parses.

use ambiparse::{pred, tok, Ast, AstMap, AstPred, AstSplit, ParseError, TokenPred};

const A: u64 = 97;
const B: u64 = 98;
const C: u64 = 99;

fn list(xs: Vec<Ast>) -> Ast {
    let mut out = Ast::Nil;
    for x in xs.into_iter().rev() {
        out = Ast::Cons(Box::new(x), Box::new(out));
    }
    out
}

#[test]
fn sequence_pairs_both_values() {
    let p = tok(A).and_then(tok(B));
    let r = p.parse(&vec![A, B], 10);
    assert_eq!(r, Some(Ok(Ast::Pair(Box::new(Ast::Num(A)), Box::new(Ast::Num(B))))));
}

#[test]
fn sequence_propagates_first_part_error() {
    let p = tok(A).and_then(tok(B));
    let r = p.parse(&vec![B], 10);
    assert_eq!(r, Some(Err(ParseError::UnexpectedTokenProperKnown { expected: A, found: B })));
}

#[test]
fn sequence_keeps_viable_branch_and_drops_failing_one() {
    // The first part parses the input in two ways; the second part succeeds
    // only from the shorter one's remainder.  The sequence keeps exactly the
    // surviving pairing: it neither comes up empty nor reports the error.
    let one_a = tok(A).map(AstMap::ToConst(Ast::Num(1)));
    let two_a = tok(A).and_then(tok(B)).map(AstMap::ToConst(Ast::Num(2)));
    let first = one_a.or(two_a);
    let p = first.and_then(tok(B));
    let ds = p.parse_inner(&vec![A, B, C], 10).unwrap().unwrap();
    assert_eq!(ds.len(), 1);
    assert_eq!(ds.get(0).ast, Ast::Pair(Box::new(Ast::Num(1)), Box::new(Ast::Num(B))));
    assert_eq!(ds.get(0).pos, 2);
}

#[test]
fn sequence_reports_first_second_part_error() {
    // Both of the first part's derivations make the second part fail; the
    // error from the earliest derivation wins.
    let one_a = tok(A).map(AstMap::ToConst(Ast::Num(1)));
    let two_a = tok(A).and_then(tok(B)).map(AstMap::ToConst(Ast::Num(2)));
    let first = one_a.or(two_a);
    let p = first.and_then(tok(C));
    let r = p.parse(&vec![A, B, B], 10);
    assert_eq!(r, Some(Err(ParseError::UnexpectedTokenProperKnown { expected: C, found: B })));
}

#[test]
fn alternation_union_deduplicates_equal_derivations() {
    let p = tok(A).or(pred(TokenPred::AnyTok));
    let ds = p.parse_inner(&vec![A], 10).unwrap().unwrap();
    assert_eq!(ds.len(), 1);
    assert_eq!(ds.get(0).ast, Ast::Num(A));
    assert_eq!(ds.get(0).pos, 1);
}

#[test]
fn alternation_falls_back_to_second_branch() {
    let p = tok(A).or(tok(B));
    let r = p.parse(&vec![B], 10);
    assert_eq!(r, Some(Ok(Ast::Num(B))));
}

#[test]
fn alternation_reports_first_branch_error_when_both_fail() {
    let p = tok(A).or(tok(B));
    let r = p.parse(&vec![C], 10);
    assert_eq!(r, Some(Err(ParseError::UnexpectedTokenProperKnown { expected: A, found: C })));
}

#[test]
fn equal_valued_derivations_parse_unambiguously() {
    // Two structurally different branches agree on the value; the set of
    // distinct full-input values has one element, so this is not ambiguous.
    let by_token = tok(A).map(AstMap::ToConst(Ast::Num(1)));
    let by_pred = pred(TokenPred::IfEq(A, Ast::Num(1)));
    let p = by_token.or(by_pred);
    let r = p.parse(&vec![A], 10);
    assert_eq!(r, Some(Ok(Ast::Num(1))));
}

#[test]
fn distinct_valued_derivations_report_ambiguity() {
    let one = tok(A).map(AstMap::ToConst(Ast::Num(1)));
    let two = tok(A).map(AstMap::ToConst(Ast::Num(2)));
    let p = one.or(two);
    let r = p.parse(&vec![A], 10);
    assert_eq!(
        r,
        Some(Err(ParseError::AmbiguousGrammar(vec![String::from("1"), String::from("2")]))),
    );
}

#[test]
fn parse_all_returns_every_full_value() {
    let one = tok(A).map(AstMap::ToConst(Ast::Num(1)));
    let two = tok(A).map(AstMap::ToConst(Ast::Num(2)));
    let p = one.or(two);
    let r = p.parse_all(&vec![A], 10);
    assert_eq!(r, vec![Ast::Num(1), Ast::Num(2)]);
}

#[test]
fn parse_all_is_empty_on_failure() {
    let p = tok(A);
    assert_eq!(p.parse_all(&vec![B], 10), vec![]);
    assert_eq!(p.parse_all(&vec![A, B], 10), vec![]);
}

#[test]
fn map_rewrites_every_value() {
    let p = tok(A).map(AstMap::WrapList);
    let r = p.parse(&vec![A], 10);
    assert_eq!(r, Some(Ok(list(vec![Ast::Num(A)]))));
}

#[test]
fn map_merges_derivations_that_become_equal() {
    let one = tok(A).map(AstMap::ToConst(Ast::Num(1)));
    let two = tok(A).map(AstMap::ToConst(Ast::Num(2)));
    let p = one.or(two).map(AstMap::ToConst(Ast::Num(9)));
    let ds = p.parse_inner(&vec![A], 10).unwrap().unwrap();
    assert_eq!(ds.len(), 1);
    assert_eq!(ds.get(0).ast, Ast::Num(9));
}

#[test]
fn filter_keeps_only_passing_derivations() {
    let one = tok(A).map(AstMap::ToConst(Ast::Num(1)));
    let two = tok(A).map(AstMap::ToConst(Ast::Num(2)));
    let e = ParseError::UnexpectedTokenProperUnknown;
    let p = one.or(two).filter(AstPred::EqTo(Ast::Num(2)), e);
    let r = p.parse(&vec![A], 10);
    assert_eq!(r, Some(Ok(Ast::Num(2))));
}

#[test]
fn filter_reports_configured_error_when_nothing_passes() {
    let e = ParseError::UnexpectedTokenProperKnown { expected: 5, found: 6 };
    let p = tok(A).filter(AstPred::Never, e);
    let r = p.parse(&vec![A], 10);
    assert_eq!(r, Some(Err(ParseError::UnexpectedTokenProperKnown { expected: 5, found: 6 })));
}

#[test]
fn filter_leaves_genuine_inner_failure_alone() {
    let e = ParseError::UnexpectedTokenProperUnknown;
    let p = tok(A).filter(AstPred::Always, e);
    let r = p.parse(&vec![B], 10);
    assert_eq!(r, Some(Err(ParseError::UnexpectedTokenProperKnown { expected: A, found: B })));
}

#[test]
fn filter_in_range_keeps_scalars_between_bounds() {
    let p = pred(TokenPred::AnyTok).filter(
        AstPred::NumInRange(0, 9),
        ParseError::UnexpectedTokenProperUnknown,
    );
    assert_eq!(p.parse(&vec![7], 10), Some(Ok(Ast::Num(7))));
    let p2 = pred(TokenPred::AnyTok).filter(
        AstPred::NumInRange(0, 9),
        ParseError::UnexpectedTokenProperUnknown,
    );
    assert_eq!(p2.parse(&vec![A], 10), Some(Err(ParseError::UnexpectedTokenProperUnknown)));
}

#[test]
fn split_expands_list_value_into_derivations() {
    let two = list(vec![Ast::Num(1), Ast::Num(2)]);
    let p = tok(A).map(AstMap::ToConst(two)).split_map(AstSplit::Elems);
    let r = p.parse_all(&vec![A], 10);
    assert_eq!(r, vec![Ast::Num(1), Ast::Num(2)]);
}

#[test]
fn split_to_nothing_fails() {
    let p = tok(A).map(AstMap::ToConst(Ast::Nil)).split_map(AstSplit::Elems);
    let r = p.parse(&vec![A], 10);
    assert_eq!(r, Some(Err(ParseError::UnexpectedTokenProperUnknown)));
}

#[test]
fn split_pair_parts_yields_both_halves() {
    let p = tok(A).and_then(tok(B)).split_map(AstSplit::PairParts);
    let r = p.parse_all(&vec![A, B], 10);
    assert_eq!(r, vec![Ast::Num(A), Ast::Num(B)]);
}

#[test]
fn split_keep_one_is_identity() {
    let p = tok(A).split_map(AstSplit::KeepOne);
    assert_eq!(p.parse(&vec![A], 10), Some(Ok(Ast::Num(A))));
}

#[test]
fn unhandled_tokens_picks_shortest_remainder() {
    // One branch consumes one token, the other two; neither reaches the
    // end, and the leftover reported is the shorter remainder.
    let short = tok(A).map(AstMap::ToConst(Ast::Num(1)));
    let long = tok(A).and_then(tok(B)).map(AstMap::ToConst(Ast::Num(2)));
    let p = short.or(long);
    let r = p.parse(&vec![A, B, C], 10);
    assert_eq!(r, Some(Err(ParseError::UnhandledTokens(vec![C]))));
}

#[test]
fn join_pair_leaves_non_pair_values_alone() {
    let p = tok(A).map(AstMap::JoinPair);
    assert_eq!(p.parse(&vec![A], 10), Some(Ok(Ast::Num(A))));
}

#[test]
fn join_pair_concatenates_two_lists() {
    let p = tok(A).map(AstMap::WrapList).and_then(tok(B).map(AstMap::WrapList)).map(
        AstMap::JoinPair,
    );
    assert_eq!(p.parse(&vec![A, B], 10), Some(Ok(list(vec![Ast::Num(A), Ast::Num(B)]))));
}

#[test]
fn duplicated_parser_parses_alike() {
    let p = tok(A).and_then(tok(B));
    let q = p.duplicate();
    assert_eq!(p.parse(&vec![A, B], 10), q.parse(&vec![A, B], 10));
}

#[test]
fn debug_wrappers_do_not_change_parsing() {
    let p = tok(A).debug().debug_msg(String::from("label"));
    let r = p.parse(&vec![A], 10);
    assert_eq!(r, Some(Ok(Ast::Num(A))));
}
