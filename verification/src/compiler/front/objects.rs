//! The objects used by the front end of the compiler, with the small
//! constructors that make life easier.
use vstd::prelude::*;

verus! {

/// The base operation set, used in [`TokenStream`].
#[derive(Clone, Copy, Debug, PartialEq, Eq, Structural)]
pub enum BaseOp {
    /// Add to the current cell, `+`.
    Add,
    /// Subtract from the current cell, `-`.
    Sub,
    /// Move right, `>`.
    Mvr,
    /// Move left, `<`.
    Mvl,
    /// Start a loop, `[`.
    Srt,
    /// End a loop, `]`.
    End,
    /// Output the current cell, `.`.
    Out,
    /// Input into the current cell, `,`.
    Inp,
    /// Any other character, kept to count characters for error messages.
    CharCount,
    /// A line break, kept to count lines for error messages.
    NewLine,
}

/// The node of a syntax tree, used in [`Block`].
#[derive(Debug, PartialEq)]
pub enum Node {
    /// `+`
    Add,
    /// `-`
    Sub,
    /// `>`
    Mvr,
    /// `<`
    Mvl,
    /// `.`
    Out,
    /// `,`
    Inp,
    /// A loop, `[Block]`.
    Lop(Block),
    /// Any other character, kept for error messages.
    CharCount,
    /// A line break, kept for error messages.
    NewLine,
}

/// A group of nodes of a syntax tree.
#[derive(Debug, PartialEq, Default)]
pub struct Block(pub Vec<Node>);

/// A wrapper for a program's source.
#[derive(Debug, Default)]
pub struct SourceProgram(pub String);

/// A stream of tokens.
#[derive(Debug, PartialEq)]
pub struct TokenStream(pub Vec<BaseOp>);

impl Block {
    /// Pushes a node to the bottom of the current branch of the tree.
    pub fn push(&mut self, node: Node)
        ensures
            final(self).0@ == old(self).0@.push(node),
    {
        self.0.push(node);
    }

    /// Creates a block from its nodes.
    pub fn new(vect: Vec<Node>) -> (b: Self)
        ensures
            b.0@ == vect@,
    {
        Self(vect)
    }
}

impl Default for TokenStream {
    fn default() -> (t: Self)
        ensures
            t.0@ == Seq::<BaseOp>::empty(),
    {
        Self::new(Vec::new())
    }
}

impl TokenStream {
    /// Pushes a token to the end of the stream.
    pub fn push(&mut self, op: BaseOp)
        ensures
            final(self).0@ == old(self).0@.push(op),
    {
        self.0.push(op);
    }

    /// Creates a stream from its tokens.
    pub fn new(vect: Vec<BaseOp>) -> (t: Self)
        ensures
            t.0@ == vect@,
    {
        Self(vect)
    }
}

impl SourceProgram {
    /// Creates a program from its source text.
    pub fn new(source: String) -> (p: Self)
        ensures
            p.0@ == source@,
    {
        Self(source)
    }
}

} // verus!
