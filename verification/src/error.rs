//! The errors of this crate.
use vstd::prelude::*;
use crate::text::{decimal, push_decimal, push_str, string_of};

verus! {

/// The standard brainfuck error type: runtime and syntax errors.
#[derive(Debug, PartialEq, Eq)]
pub enum Error {
    /// A standard I/O error, held as the text that describes it.
    IO(String),
    /// Something requested the program to stop.
    Stop,
    /// The pointer moved to a negative memory address, at (line, character).
    NegativeAddress((usize, usize)),
    /// The pointer moved to a memory address >= `30_000`, at (line, character).
    TooLargeAddress((usize, usize)),
    /// A `[` is unmatched, at (line, character).
    UnmatchedStart((usize, usize)),
    /// A `]` is unmatched, at (line, character).
    UnmatchedEnd((usize, usize)),
    /// A jump of the wrong kind was used: a table was expected and a stack
    /// was found, or the other way round.
    JumpType,
}

/// A `Result` whose error is [`Error`].
pub type Result<T> = core::result::Result<T, Error>;

/// `" at line L, character C"` for a (line, character) position.
pub open spec fn position_text(pos: (usize, usize)) -> Seq<char> {
    " at line "@ + decimal(pos.0 as nat) + ", character "@ + decimal(pos.1 as nat)
}

impl Error {
    /// The text that describes the error to a user.
    pub open spec fn spec_message(&self) -> Seq<char> {
        match self {
            Error::IO(text) => text@,
            Error::Stop => "Program was requested to stop"@,
            Error::NegativeAddress(pos) => "Pointer moved to a negative address"@ + position_text(*pos),
            Error::TooLargeAddress(pos) => "Pointer moved to a memory address >= 30_000"@
                + position_text(*pos),
            Error::UnmatchedStart(pos) => "Unmatched ["@ + position_text(*pos),
            Error::UnmatchedEnd(pos) => "Unmatched ]"@ + position_text(*pos),
            Error::JumpType => "Wrong Jump type"@,
        }
    }

    /// Writes the text that describes the error: what a user reads.
    pub fn message(&self) -> (m: String)
        ensures
            m@ == self.spec_message(),
    {
        match self {
            Error::IO(text) => text.clone(),
            Error::Stop => string_of("Program was requested to stop"),
            Error::NegativeAddress(pos) => with_position("Pointer moved to a negative address", *pos),
            Error::TooLargeAddress(pos) => with_position(
                "Pointer moved to a memory address >= 30_000",
                *pos,
            ),
            Error::UnmatchedStart(pos) => with_position("Unmatched [", *pos),
            Error::UnmatchedEnd(pos) => with_position("Unmatched ]", *pos),
            Error::JumpType => string_of("Wrong Jump type"),
        }
    }
}

/// `head` followed by the position text.
fn with_position(head: &str, pos: (usize, usize)) -> (m: String)
    ensures
        m@ == head@ + position_text(pos),
{
    let mut m = string_of(head);
    push_str(&mut m, " at line ");
    push_decimal(&mut m, pos.0);
    push_str(&mut m, ", character ");
    push_decimal(&mut m, pos.1);
    assert(m@ =~= head@ + position_text(pos));
    m
}

} // verus!
