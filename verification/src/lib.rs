//! A tree-walking interpreter for the Lox language: scanner, parser,
//! static resolver and evaluator.
//!
//! Each stage is executable code with a contract over a mathematical model:
//!
//! - `scanner` turns ASCII text into tokens; its contract is the lexing of a
//!   line, position by position.
//! - `grammar` states the grammar as functions on token sequences, and
//!   `parser` is proved to compute them, errors and recovery included.
//! - `resolver` writes into the syntax tree how many scopes lie between each
//!   use of a name and its declaration; `resolver::rules` says what it
//!   writes, `resolver::laws` what holds of that.
//! - `semantics` says what evaluation means, on the model of the
//!   interpreter's state in `machine`; `interpreter` is proved to compute it.
//! - `laws` and `scoping` hold what is true of every program, up to this:
//!   a program that the resolver accepts finds its local variables when it
//!   runs, but for a mention of a local variable in its own initializer.
//!
//! Numbers are IEEE-754 doubles, held as bit patterns (`number`). The
//! library itself neither reads nor prints: what a program prints is kept
//! by the interpreter until the host takes it, which it can do between
//! any two statements of a program (`Interpreter::step`), and numbers in it
//! are left to the host to write.
pub mod number;
pub mod text;
pub mod scanner;
pub mod expression;
pub mod statement;
pub mod grammar;
pub mod parser;
pub mod resolver;
pub mod table;
pub mod value;
pub mod machine;
pub mod semantics;
pub mod interpreter;
pub mod laws;
pub mod scoping;

pub use interpreter::{Class, Instance};
pub use value::{
    is_truthy, CallableWrapper, Function, Rendered, RuntimeError, RuntimeResult, RuntimeValue,
};
