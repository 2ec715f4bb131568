//! A small interactive-shell library: an expression interpreter
//! (tokenizer, recursive-descent parser and stack-machine evaluator)
//! together with an in-memory virtual filesystem driven by
//! shell-style commands.

pub mod logger;
pub mod text;
pub mod machine;
pub mod interpreter;
pub mod operator;
pub mod common;
pub mod token;
pub mod ast;
pub mod stackmachine;
pub mod graph;
pub mod filesystem;
pub mod command;
pub mod shell;
