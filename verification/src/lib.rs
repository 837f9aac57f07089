//! A small expression language: a tokenizer, a recursive-descent parser,
//! a renderer that writes a tree down again, and a tree-walking interpreter
//! with chained scopes, together with a line editor for an interactive
//! front end and a parser for a call language whose call syntax is set by
//! the program itself.
//!
//! Floating-point numbers never appear as such: a literal keeps its text,
//! a value is a binary64 bit pattern, and every operation on floats is
//! handed to the host as a [`float::FloatRequest`].

pub mod arith;
pub mod assoc;
pub mod ast;
pub mod environment;
pub mod float;
pub mod interpreter;
pub mod lexer;
pub mod parser;
pub mod render;
pub mod repl;
pub mod spell;
pub mod text;
pub mod value;
