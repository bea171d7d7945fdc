//! The derived combinator library: repetition, interleaving, N-ary
//! conjunction and disjunction, built purely from the primitives.

use ambiparse::{alternating, conjoin, disjunction, pred, repeat_multiple_of_n_times,
    repeat_n_times, series, tok, vecify, Ast, ParseError, Parser, TokenPred};

const A: u64 = 97;
const B: u64 = 98;

fn list(xs: Vec<Ast>) -> Ast {
    let mut out = Ast::Nil;
    for x in xs.into_iter().rev() {
        out = Ast::Cons(Box::new(x), Box::new(out));
    }
    out
}

#[test]
fn vecify_wraps_single_value() {
    let p = vecify(tok(A));
    assert_eq!(p.parse(&vec![A], 10), Some(Ok(list(vec![Ast::Num(A)]))));
}

#[test]
fn concat_joins_both_values_into_one_list() {
    let p = ambiparse::transformers::concat(tok(A), tok(B));
    assert_eq!(p.parse(&vec![A, B], 10), Some(Ok(list(vec![Ast::Num(A), Ast::Num(B)]))));
}

#[test]
fn series_of_digits_parses_whole_input() {
    let digit = pred(TokenPred::InRange(0, 9));
    let number = series(digit);
    let r = number.parse(&vec![1, 2, 3], 100);
    assert_eq!(r, Some(Ok(list(vec![Ast::Num(1), Ast::Num(2), Ast::Num(3)]))));
}

#[test]
fn series_requires_at_least_one_occurrence() {
    let digit = pred(TokenPred::InRange(0, 9));
    let number = series(digit);
    let r = number.parse(&vec![], 100);
    assert_eq!(r, Some(Err(ParseError::UnexpectedEndOfInputProperUnknown)));
}

#[test]
fn series_yields_every_prefix_as_a_derivation() {
    let digit = pred(TokenPred::InRange(0, 9));
    let number = series(digit);
    let ds = number.parse_inner(&vec![1, 2], 100).unwrap().unwrap();
    assert_eq!(ds.len(), 2);
    assert_eq!(ds.get(0).ast, list(vec![Ast::Num(1)]));
    assert_eq!(ds.get(0).pos, 1);
    assert_eq!(ds.get(1).ast, list(vec![Ast::Num(1), Ast::Num(2)]));
    assert_eq!(ds.get(1).pos, 2);
}

#[test]
fn repeat_n_times_demands_exact_count() {
    let p = repeat_n_times(tok(A), 3);
    assert_eq!(
        p.parse(&vec![A, A, A], 100),
        Some(Ok(list(vec![Ast::Num(A), Ast::Num(A), Ast::Num(A)]))),
    );
    let p2 = repeat_n_times(tok(A), 3);
    assert_eq!(
        p2.parse(&vec![A, A], 100),
        Some(Err(ParseError::UnexpectedEndOfInputProperKnown { expected: A })),
    );
}

#[test]
fn repeat_n_times_once_is_the_wrapped_parser() {
    let p = repeat_n_times(tok(A), 1);
    assert_eq!(p.parse(&vec![A], 100), Some(Ok(list(vec![Ast::Num(A)]))));
}

#[test]
fn repeat_multiple_of_n_times_accepts_whole_blocks() {
    let p = repeat_multiple_of_n_times(tok(A), 2);
    assert_eq!(
        p.parse(&vec![A, A, A, A], 100),
        Some(Ok(list(vec![Ast::Num(A), Ast::Num(A), Ast::Num(A), Ast::Num(A)]))),
    );
}

#[test]
fn repeat_multiple_of_n_times_rejects_a_partial_block() {
    let p = repeat_multiple_of_n_times(tok(A), 2);
    assert_eq!(p.parse(&vec![A, A, A], 100), Some(Err(ParseError::UnhandledTokens(vec![A]))));
}

#[test]
fn alternating_accepts_strict_alternations_from_either_side() {
    let p = alternating(tok(A), tok(B));
    assert_eq!(
        p.parse(&vec![A, B, A], 100),
        Some(Ok(list(vec![Ast::Num(A), Ast::Num(B), Ast::Num(A)]))),
    );
    let p2 = alternating(tok(A), tok(B));
    assert_eq!(
        p2.parse(&vec![B, A], 100),
        Some(Ok(list(vec![Ast::Num(B), Ast::Num(A)]))),
    );
    let p3 = alternating(tok(A), tok(B));
    assert_eq!(p3.parse(&vec![A], 100), Some(Ok(list(vec![Ast::Num(A)]))));
}

#[test]
fn alternating_rejects_a_repeated_side() {
    let p = alternating(tok(A), tok(B));
    assert_eq!(p.parse(&vec![A, A], 100), Some(Err(ParseError::UnhandledTokens(vec![A]))));
}

#[test]
fn conjoin_sequences_all_parts_in_order() {
    let parts: Vec<Parser> = vec![tok(A), tok(B), tok(A)];
    let p = conjoin(parts);
    assert_eq!(
        p.parse(&vec![A, B, A], 100),
        Some(Ok(list(vec![Ast::Num(A), Ast::Num(B), Ast::Num(A)]))),
    );
}

#[test]
fn conjoin_of_nothing_matches_only_empty_input() {
    let p = conjoin(vec![]);
    assert_eq!(p.parse(&vec![], 10), Some(Ok(Ast::Nil)));
    let p2 = conjoin(vec![]);
    assert_eq!(p2.parse(&vec![A], 10), Some(Err(ParseError::UnhandledTokens(vec![A]))));
}

#[test]
fn disjunction_tries_alternatives_in_order() {
    let p = disjunction(vec![tok(A), tok(B)]);
    assert_eq!(p.parse(&vec![B], 10), Some(Ok(Ast::Num(B))));
}

#[test]
fn disjunction_of_nothing_never_succeeds() {
    let p = disjunction(vec![]);
    assert_eq!(p.parse(&vec![A], 10), Some(Err(ParseError::UnexpectedTokenProperUnknown)));
    let p2 = disjunction(vec![]);
    assert_eq!(p2.parse(&vec![], 10), Some(Err(ParseError::UnexpectedEndOfInputProperUnknown)));
}
