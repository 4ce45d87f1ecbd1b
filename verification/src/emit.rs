//! What building a program emits: the levels the compiler can stop at, the
//! file extension for each, and the framing of a stored artifact.
use vstd::prelude::*;

verus! {

/// The level at which the compiler stops and emits its current code.
#[derive(Clone, Copy, Debug, PartialEq, Eq, Structural)]
pub enum Emit {
    /// Token stream.
    Stream,
    /// Abstract syntax tree.
    Tree,
    /// Bytecode.
    Byte,
    /// Optimised bytecode.
    ByteOptimised,
    /// LLVM IR.
    Llvm,
    /// Machine code.
    Machine,
    /// Optimised machine code.
    MachineOptimised,
}

/// The tag byte that starts a stored token stream.
pub const STREAM_TAG: u8 = 1;

/// The tag byte that starts a stored syntax tree.
pub const TREE_TAG: u8 = 2;

impl Emit {
    /// The extension given to an output file that was named explicitly:
    /// `.bstr` for a token stream, `.bfc` for bytecode, none otherwise.
    pub fn extension(&self) -> (e: &'static str)
        ensures
            *self == Emit::Stream ==> e@ == ".bstr"@,
            (*self == Emit::Byte || *self == Emit::ByteOptimised) ==> e@ == ".bfc"@,
            !(*self == Emit::Stream || *self == Emit::Byte || *self == Emit::ByteOptimised) ==> e@
                == ""@,
    {
        match self {
            Emit::Stream => ".bstr",
            Emit::Byte | Emit::ByteOptimised => ".bfc",
            _ => "",
        }
    }

    /// Whether building stops after lexing and stores the token stream.
    pub fn stops_after_lexing(&self) -> (b: bool)
        ensures
            b == (*self == Emit::Stream),
    {
        match self {
            Emit::Stream => true,
            _ => false,
        }
    }

    /// Whether building stops after parsing and stores the syntax tree.
    pub fn stops_after_parsing(&self) -> (b: bool)
        ensures
            b == (*self == Emit::Tree),
    {
        match self {
            Emit::Tree => true,
            _ => false,
        }
    }
}

/// A stored artifact: its tag byte followed by the encoded payload.
pub fn frame(tag: u8, payload: &Vec<u8>) -> (out: Vec<u8>)
    ensures
        out@ == seq![tag] + payload@,
{
    let mut out: Vec<u8> = Vec::new();
    out.push(tag);
    let mut i: usize = 0;
    while i < payload.len()
        invariant
            i <= payload@.len(),
            out@ == seq![tag] + payload@.take(i as int),
        decreases payload@.len() - i,
    {
        out.push(payload[i]);
        i = i + 1;
        assert(out@ =~= seq![tag] + payload@.take(i as int));
    }
    assert(payload@.take(payload@.len() as int) =~= payload@);
    out
}

} // verus!
