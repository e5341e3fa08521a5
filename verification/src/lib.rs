//! A small expression-oriented scripting language: a lexer that turns source
//! text into tokens, a recursive-descent parser with operator-precedence
//! climbing that builds an expression tree, and a tree-walking evaluator that
//! runs the tree against a mutable variable environment.
//!
//! Every stage is specified against a mathematical model: tokens, expressions
//! and runtime values each have a ghost view, and the executable lexer, parser
//! and evaluator are proved equal to spec-level interpreters over those views.

pub mod lexer;
pub mod parser;
pub mod utils;
pub mod vm;
