//! An interactive, keyboard-driven command launcher: a configuration language
//! for menu trees, incremental prefix matching, snippet expansion and shell
//! invocation, with every function proved against its contract.

pub mod engine;
pub mod lexer;
pub mod locate;
pub mod matching;
pub mod model;
pub mod parser;
pub mod session;
pub mod shell;
pub mod snippet;
pub mod text;
