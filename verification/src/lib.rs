//! Front end of a compiler for a small Lisp-family language: a pull-based
//! lexer, a recursive-descent parser with panic-mode error recovery, and the
//! binary-encoding primitives of the WebAssembly module format.

pub mod emitter;
pub mod numbers;
pub mod parser;
pub mod render;
pub mod scanner;
pub mod text;
pub mod token;
