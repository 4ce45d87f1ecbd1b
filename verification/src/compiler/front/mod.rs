//! The front end of the compiler: tokens, syntax trees, lexing and parsing.
pub mod lex;
pub mod objects;
pub mod parse;
pub use objects::{BaseOp, Block, Node, SourceProgram, TokenStream};
