//! Self-referential grammars: the deferred node, the recursion budget, and
//! the depth-bounded left-recursion analysis.

use ambiparse::{lazy, pred, self_ref, tok, Ast, LeftRecursionCheck, TokenPred};

const X: u64 = 120;
const LP: u64 = 40;
const RP: u64 = 41;

#[test]
fn left_recursive_grammar_is_flagged_at_every_depth() {
    for depth in 1..8 {
        let p = lazy(self_ref().and_then(tok(X)));
        assert!(p.check_left_recursion(depth).is_not_ok());
    }
}

#[test]
fn right_recursive_grammar_passes_with_enough_depth() {
    for depth in 2..8 {
        let p = lazy(tok(X).and_then(self_ref()));
        assert!(p.check_left_recursion(depth).is_ok());
    }
}

#[test]
fn primitives_pass_the_check_at_depth_zero() {
    assert!(tok(X).check_left_recursion(0).is_ok());
    assert!(pred(TokenPred::AnyTok).check_left_recursion(0).is_ok());
}

#[test]
fn composite_without_enough_depth_is_flagged() {
    let p = tok(X).and_then(tok(X));
    assert!(p.check_left_recursion(0).is_not_ok());
    let p2 = tok(X).and_then(tok(X));
    assert!(p2.check_left_recursion(1).is_ok());
}

#[test]
fn failing_verdict_carries_labels_on_the_path() {
    let p = lazy(self_ref().and_then(tok(X)).debug_msg(String::from("rule")));
    let r = p.check_left_recursion(1);
    assert_eq!(r, LeftRecursionCheck::NotOk(vec![String::from("rule")]));
}

#[test]
fn labeled_node_without_message_adds_no_label() {
    let p = lazy(self_ref().and_then(tok(X)).debug());
    let r = p.check_left_recursion(1);
    assert_eq!(r, LeftRecursionCheck::NotOk(vec![]));
}

#[test]
fn left_recursive_grammar_runs_out_of_fuel() {
    let p = lazy(self_ref().and_then(tok(X)));
    assert_eq!(p.parse(&vec![X], 100), None);
}

#[test]
fn unbound_self_reference_never_matches() {
    let p = self_ref();
    let r = p.parse(&vec![X], 10);
    assert_eq!(r, Some(Err(ambiparse::ParseError::UnexpectedTokenProperUnknown)));
}

#[test]
fn right_recursive_grammar_parses_repetitions() {
    // One `x` followed by more, ended by a lone `x`: the grammar is
    // x (x (x ...)) expressed with a self-reference behind the token.
    let p = lazy(tok(X).and_then(self_ref()).map(ambiparse::AstMap::ToConst(Ast::Num(2))).or(
        tok(X).map(ambiparse::AstMap::ToConst(Ast::Num(1))),
    ));
    let r = p.parse(&vec![X, X, X], 100);
    assert_eq!(r, Some(Ok(Ast::Num(2))));
    let p2 = lazy(tok(X).and_then(self_ref()).map(ambiparse::AstMap::ToConst(Ast::Num(2))).or(
        tok(X).map(ambiparse::AstMap::ToConst(Ast::Num(1))),
    ));
    assert_eq!(p2.parse(&vec![X], 100), Some(Ok(Ast::Num(1))));
}

#[test]
fn nested_parentheses_grammar_fully_consumes() {
    // expr = '(' expr ')' | digit, written with the self-reference inside
    // the deferred node.
    let digit = pred(TokenPred::InRange(0, 9));
    let p = lazy(tok(LP).and_then(self_ref()).and_then(tok(RP)).or(digit));
    let ds = p.parse_inner(&vec![LP, LP, 5, RP, RP], 100).unwrap().unwrap();
    assert_eq!(ds.len(), 1);
    assert_eq!(ds.get(0).pos, 5);
    let inner = Ast::Pair(
        Box::new(Ast::Pair(Box::new(Ast::Num(LP)), Box::new(Ast::Num(5)))),
        Box::new(Ast::Num(RP)),
    );
    let outer = Ast::Pair(
        Box::new(Ast::Pair(Box::new(Ast::Num(LP)), Box::new(inner))),
        Box::new(Ast::Num(RP)),
    );
    assert_eq!(ds.get(0).ast, outer);
}

#[test]
fn enclosing_ref_reaches_an_outer_deferred_node() {
    // The innermost deferred node refers one level out, so the whole
    // grammar is x ( y <whole> | y ): x and y strictly alternate, starting
    // with x and ending with y.
    let y: u64 = 121;
    let inner = lazy(
        tok(y).and_then(ambiparse::enclosing_ref(1)).or(tok(y)),
    );
    let p = lazy(tok(X).and_then(inner));
    let ds = p.parse_inner(&vec![X, y, X, y], 100).unwrap().unwrap();
    assert_eq!(ds.len(), 2);
    assert_eq!(ds.get(0).pos, 4);
    assert_eq!(ds.get(1).pos, 2);
}

#[test]
fn fuel_does_not_matter_without_self_reference() {
    let p = tok(X).and_then(tok(X));
    assert_eq!(p.parse(&vec![X, X], 0), p.parse(&vec![X, X], 1000));
}
