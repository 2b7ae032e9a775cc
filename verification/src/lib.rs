//! A small Lisp-like expression language: a tokenizer, a recursive-descent
//! parser, and a tree-walking evaluator with integer and boolean arithmetic,
//! `define`, `if`, and first-class closures.
//!
//! Every public function carries a contract relating it to a mathematical
//! model: expressions are modelled by [`types::SpecExpr`], environments by
//! `Map<Seq<char>, SpecExpr>`, and evaluation by the fuel-indexed
//! [`eval::eval_spec`].

pub mod env;
pub mod eval;
pub mod laws;
pub mod parser;
pub mod render;
pub mod roundtrip;
pub mod tokens;
pub mod text;
pub mod types;

pub use env::default_env;
pub use eval::eval;
pub use parser::parse;
pub use tokens::tokenize;
pub use types::{Env, Expr};
