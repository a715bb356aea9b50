//! An arithmetic expression engine.
//!
//! Text is split into tokens ([`tokens::tokenize`]), the tokens are built
//! into one tree by operator precedence ([`tree::create_tree`]), and the tree
//! is evaluated against a [`solver::Context`] of variables and built-in
//! functions. The context resolves names and readies calls
//! ([`solver::Context::prepare_call`]); each built-in receives its arguments
//! as unevaluated trees and decides which of them to evaluate.
pub mod funcs;
pub mod solver;
pub mod strings;
pub mod text;
pub mod token;
pub mod tokens;
pub mod tree;
