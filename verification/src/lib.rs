//! A small expression language: a lexer, a recursive-descent parser and
//! a tree-walking evaluator, each with a machine-checked contract.
//!
//! A source text is a list of statements, each an expression that ends
//! with `;`. Expressions are made of numbers, variables, parentheses,
//! the operators `+ - * /`, the comparisons `== != < > <= >=` and the
//! assignment `=`.
//!
//! * [`tokenize`] turns the text into tokens. [`tokenize::scan`] states
//!   the lexical rules and the token stream of a text;
//!   [`tokenize::TokenGen`] hands the tokens out one at a time and
//!   [`tokenize::TokenList`] all at once.
//! * [`ast`] holds the syntax tree. [`ast::grammar`] states the grammar
//!   as functions on a token stream, [`ast::parser`] is the parser that
//!   is proved against it, and [`ast::eval`] states what evaluating a
//!   tree means, which [`ast::Node::compile`] and
//!   [`ast::Program::compile`] carry out.
//! * [`arith`] is the arithmetic of the language: numbers are signed
//!   integers of thirty-two bits, sums, differences, products and
//!   literals wrap around, division rounds toward zero, and a division
//!   by zero is a failure.
//! * [`error`] is the error value that every stage returns.
//!
//! What holds of all inputs is stated as proof functions next to the
//! definitions: in [`tokenize::scan`] of the token stream, in
//! [`ast::laws`] and [`ast::spelling`] of the grammar, in [`ast::eval`]
//! of evaluation.

pub mod arith;
pub mod array;
pub mod ast;
pub mod chars;
pub mod datatype;
pub mod error;
pub mod tokenize;
