//! The pre-processing that can be used for interpretation and compilation.
pub mod front;
pub use front::{BaseOp, Block, Node, SourceProgram, TokenStream};
