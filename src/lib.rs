//! Propositional expressions over numbered variables: a parser from text,
//! an evaluator, and an exhaustive satisfiability search.
pub mod expression;
pub mod parser;
pub mod search;
