//! A small Lisp-like language: tokenizer, tree builder, lexical environment
//! and a tree-walking evaluator, with every function proved against its
//! contract.

pub mod environment;
pub mod error;
pub mod interpreter;
pub mod operations;
pub mod parser;
pub mod semantics;
pub mod text;
pub mod tokenizer;
pub mod tokens;
