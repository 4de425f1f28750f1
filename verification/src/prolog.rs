//! A small Prolog front end: syntax trees, a parser, and compilers to
//! machine instructions.

pub mod ast;
pub mod compiler;
pub mod interpreter;
pub mod layout;
pub mod parser;
