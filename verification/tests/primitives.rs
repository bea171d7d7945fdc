//! The primitives and the result model: token match, predicate match, the
//! error taxonomy, and the derivation set's construction rules.

use ambiparse::{pred, tok, Ast, DerivationSet, LeftRecursionCheck, ParseError, PartialParseResult,
    TokenPred};

const A: u64 = 97;
const B: u64 = 98;

#[test]
fn tok_matches_single_token() {
    let p = tok(A);
    let r = p.parse(&vec![A], 10);
    assert_eq!(r, Some(Ok(Ast::Num(A))));
}

#[test]
fn tok_reports_wrong_token_with_expectation() {
    let p = tok(A);
    let r = p.parse(&vec![B], 10);
    assert_eq!(r, Some(Err(ParseError::UnexpectedTokenProperKnown { expected: A, found: B })));
}

#[test]
fn tok_reports_end_of_input_with_expectation() {
    let p = tok(A);
    let r = p.parse(&vec![], 10);
    assert_eq!(r, Some(Err(ParseError::UnexpectedEndOfInputProperKnown { expected: A })));
}

#[test]
fn pred_accepts_token_in_range() {
    let p = pred(TokenPred::InRange(0, 9));
    let r = p.parse(&vec![7], 10);
    assert_eq!(r, Some(Ok(Ast::Num(7))));
}

#[test]
fn pred_any_token_produces_the_token() {
    let p = pred(TokenPred::AnyTok);
    let r = p.parse(&vec![B], 10);
    assert_eq!(r, Some(Ok(Ast::Num(B))));
}

#[test]
fn pred_reports_unknown_mismatch() {
    let p = pred(TokenPred::InRange(0, 9));
    let r = p.parse(&vec![A], 10);
    assert_eq!(r, Some(Err(ParseError::UnexpectedTokenProperUnknown)));
}

#[test]
fn pred_reports_unknown_end_of_input() {
    let p = pred(TokenPred::Never);
    let r = p.parse(&vec![], 10);
    assert_eq!(r, Some(Err(ParseError::UnexpectedEndOfInputProperUnknown)));
}

#[test]
fn pred_if_eq_produces_carried_value() {
    let p = pred(TokenPred::IfEq(A, Ast::Num(1)));
    let r = p.parse(&vec![A], 10);
    assert_eq!(r, Some(Ok(Ast::Num(1))));
}

#[test]
fn unhandled_tokens_carries_leftover_suffix() {
    let p = tok(A);
    let r = p.parse(&vec![A, B, B], 10);
    assert_eq!(r, Some(Err(ParseError::UnhandledTokens(vec![B, B]))));
}

#[test]
fn derivation_set_from_empty_collection_fails() {
    let r = DerivationSet::from_candidates(&vec![]);
    assert!(r.is_err());
}

#[test]
fn derivation_set_deduplicates_and_keeps_order() {
    let d1 = PartialParseResult { ast: Ast::Num(1), pos: 0 };
    let d1_again = PartialParseResult { ast: Ast::Num(1), pos: 0 };
    let d2 = PartialParseResult { ast: Ast::Num(2), pos: 0 };
    let ds = DerivationSet::from_candidates(&vec![d1, d1_again, d2]).unwrap();
    assert_eq!(ds.len(), 2);
    assert_eq!(ds.get(0).ast, Ast::Num(1));
    assert_eq!(ds.get(1).ast, Ast::Num(2));
}

#[test]
fn derivations_differ_by_remainder_position() {
    let d1 = PartialParseResult { ast: Ast::Num(1), pos: 0 };
    let d2 = PartialParseResult { ast: Ast::Num(1), pos: 1 };
    assert!(!d1.eq_value(&d2));
    let ds = DerivationSet::from_candidates(&vec![d1, d2]).unwrap();
    assert_eq!(ds.len(), 2);
}

#[test]
fn left_recursion_check_accessors() {
    let ok = LeftRecursionCheck::Okay;
    assert!(ok.is_ok());
    assert!(!ok.is_not_ok());
    let bad = LeftRecursionCheck::NotOk(vec![String::from("x")]);
    assert!(!bad.is_ok());
    assert!(bad.is_not_ok());
}

#[test]
fn not_ok_or_else_keeps_failure_and_replaces_success() {
    let bad = LeftRecursionCheck::NotOk(vec![String::from("x")]);
    let kept = bad.not_ok_or_else(|| LeftRecursionCheck::Okay);
    assert_eq!(kept, LeftRecursionCheck::NotOk(vec![String::from("x")]));
    let ok = LeftRecursionCheck::Okay;
    let replaced = ok.not_ok_or_else(|| LeftRecursionCheck::NotOk(vec![]));
    assert_eq!(replaced, LeftRecursionCheck::NotOk(vec![]));
}

#[test]
fn ast_renders_numbers_pairs_and_lists() {
    assert_eq!(Ast::Num(0).to_text(), "0");
    assert_eq!(Ast::Num(105).to_text(), "105");
    let pair = Ast::Pair(
        Box::new(Ast::Num(12)),
        Box::new(Ast::Cons(Box::new(Ast::Num(3)), Box::new(Ast::Nil))),
    );
    assert_eq!(pair.to_text(), "(12, [3])");
    assert_eq!(Ast::Nil.to_text(), "[]");
    let two = Ast::Cons(
        Box::new(Ast::Num(1)),
        Box::new(Ast::Cons(Box::new(Ast::Num(2)), Box::new(Ast::Nil))),
    );
    assert_eq!(two.to_text(), "[1, 2]");
}

#[test]
fn errors_describe_themselves() {
    assert_eq!(ParseError::UnexpectedTokenProperUnknown.describe(), "Unexpected token");
    assert_eq!(ParseError::UnexpectedEndOfInputProperUnknown.describe(), "Unexpected end of input");
    assert_eq!(
        ParseError::UnexpectedTokenProperKnown { expected: 10, found: 7 }.describe(),
        "Unexpected token, expected: 10, found: 7",
    );
    assert_eq!(
        ParseError::UnexpectedEndOfInputProperKnown { expected: 42 }.describe(),
        "Unexpected end of input, expected: 42",
    );
    assert_eq!(
        ParseError::UnhandledTokens(vec![3, 4, 5]).describe(),
        "Unhandled tokens: [3, 4, 5]",
    );
    assert_eq!(
        ParseError::AmbiguousGrammar(vec![String::from("1"), String::from("2")]).describe(),
        "Grammar permits multiple interpretations: [1, 2]",
    );
}

#[test]
fn epsilon_matches_nothing_and_yields_its_value() {
    let p = ambiparse::epsilon(Ast::Num(5));
    assert_eq!(p.parse(&vec![], 10), Some(Ok(Ast::Num(5))));
    let p2 = ambiparse::epsilon(Ast::Num(5));
    assert_eq!(p2.parse(&vec![A], 10), Some(Err(ParseError::UnhandledTokens(vec![A]))));
}

#[test]
fn error_duplicate_preserves_contents() {
    let e = ParseError::UnhandledTokens(vec![1, 2]);
    assert_eq!(e.duplicate(), e);
    let a = ParseError::AmbiguousGrammar(vec![String::from("x")]);
    assert_eq!(a.duplicate(), a);
}

#[test]
fn ast_duplicate_and_equality() {
    let v = Ast::Pair(Box::new(Ast::Num(4)), Box::new(Ast::Nil));
    let w = v.duplicate();
    assert!(v.eq_value(&w));
    assert_eq!(v, w);
    assert!(!v.eq_value(&Ast::Num(4)));
}
