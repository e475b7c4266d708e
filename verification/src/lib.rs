//! Frontend of a small statically typed language: syntax trees, a parse
//! cache keyed by path and revision, and a type-inference engine built on
//! annotation, constraint collection and unification.

pub mod pos;
pub mod shared;
pub mod infer;
pub mod unify;
pub mod resolved;
pub mod annotated;
pub mod typing;
pub mod ast;
pub mod lexer;
pub mod parser;
pub mod ast_table;
