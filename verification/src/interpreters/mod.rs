//! Interpreters that run brainfuck programs one instruction at a time, and
//! the decisions of the interactive read-eval-print loop.
pub mod input;
pub mod jumps;
pub mod objects;
pub mod program_state;
pub mod raw;
pub mod repl;
pub mod session;
