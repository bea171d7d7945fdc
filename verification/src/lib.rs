//! A parser-combinator engine that keeps every viable derivation.
//!
//! Grammars are assembled from small primitives (match one token, match a
//! predicate, sequence, alternation, transforms, deferred self-reference) into
//! a combinator tree.  Evaluating the tree against a token sequence explores
//! all ways the grammar can consume a prefix of the input and reconciles them
//! at the end: exactly one full parse is the answer, several are reported as
//! ambiguity, none yields the most specific recoverable error.  A separate
//! depth-bounded static check flags unguarded left recursion, which would
//! otherwise exhaust the evaluation budget under this all-derivations
//! strategy.

pub mod ast;
pub use ast::Ast;
pub use ast::Token;
pub mod combinator;
pub use combinator::Combinator;
pub use combinator::CombinatorView;
pub mod engine;
pub mod funcs;
pub use funcs::AstMap;
pub use funcs::AstPred;
pub use funcs::AstSplit;
pub use funcs::TokenPred;
pub mod laws;
pub mod parsers;
pub use parsers::enclosing_ref;
pub use parsers::epsilon;
pub use parsers::lazy;
pub use parsers::pred;
pub use parsers::self_ref;
pub use parsers::tok;
pub use parsers::Parser;
pub mod results;
pub use results::DerivationSet;
pub use results::LeftRecursionCheck;
pub use results::ParseError;
pub use results::PartialParseResult;
pub mod transformers;
pub use transformers::alternating;
pub use transformers::alternating_vecs;
pub use transformers::conjoin;
pub use transformers::conjoin_vecs;
pub use transformers::disjunction;
pub use transformers::repeat_multiple_of_n_times;
pub use transformers::repeat_multiple_of_n_times_vecs;
pub use transformers::repeat_n_times;
pub use transformers::repeat_n_times_vecs;
pub use transformers::series;
pub use transformers::series_vecs;
pub use transformers::vecify;
