//! The Logic Abstract Machine: terms, unification, backtracking, arithmetic
//! and lambda calculus for logic programming.

pub mod arithmetic;
pub mod assembler;
pub mod assoc;
pub mod builtins;
pub mod display;
pub mod expression;
pub mod instruction_parser;
pub mod languages;
pub mod lambda;
pub mod lexer;
pub mod laws;
pub mod machine;
pub mod prolog;
pub mod round_trip;
pub mod tables;
pub mod term;
pub mod text;
pub mod unification;
pub mod union_find;
