//! The core of a small expression-oriented scripting language: a lexer, a
//! parser, a rewriting optimizer and a tree-walking evaluator.
//!
//! A source goes through the stages in this order:
//!
//! * [`ast::lex`] turns its bytes into tokens,
//! * [`ast::parse`] turns the tokens into statements,
//! * [`passers::pass`] rewrites the statements,
//! * [`interpreter::run`] evaluates them and returns what they print.
//!
//! Text is held as bytes throughout. Numbers are exact decimals with nine
//! places, see [`number`]. The evaluator is told how deep calls may nest and
//! how often a loop may go round, so that every evaluation ends.
//!
//! Every function states what it returns over a mathematical model of its
//! arguments: for a type `T` the model is `T`'s view, written with `@`.
pub mod ast;
pub mod diag;
pub mod interpreter;
pub mod number;
pub mod passers;
pub mod types;
