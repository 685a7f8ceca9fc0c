//! Parlan: a small programming language compiled to C.
//!
//! The crate holds the compiler's front and back end: the lexer, the
//! recursive-descent parser with error recovery, the semantic analyzer,
//! the type checker and the C code generator.
pub mod text;
pub mod diagnostic;
pub mod lexer;
pub mod ast;
pub mod parser;
pub mod semchecker;
pub mod tychecker;
pub mod backend;
