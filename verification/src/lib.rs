//! A brainfuck toolkit: a lexer and parser for brainfuck source, tape
//! interpreters that run a program one instruction at a time, and the
//! decisions behind the interactive read-eval-print loop.
pub mod compiler;
pub mod emit;
pub mod error;
pub mod interpreters;
pub mod pre_proccesser;
pub mod text;

pub use error::{Error, Result};
