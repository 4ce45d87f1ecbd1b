//! The pre-processing that can be used for interpretation and compilation:
//! the first front end, which keeps only the eight brainfuck commands. Its
//! tokens, trees and parse are those of the compiler's front end.
use vstd::prelude::*;
use crate::compiler::front::lex::{strip_leading_comments, token_of, tokens_of};
pub use crate::compiler::front::objects::{BaseOp, Block, Node, TokenStream};

verus! {

/// A wrapper for a program's source.
pub struct SourceProgram(pub String);

/// The eight characters that are brainfuck commands.
pub open spec fn is_command(c: char) -> bool {
    c == '+' || c == '-' || c == '>' || c == '<' || c == '[' || c == ']' || c == '.' || c == ','
}

/// The token of a command character.
pub open spec fn command_token(c: char) -> BaseOp {
    if c == '+' {
        BaseOp::Add
    } else if c == '-' {
        BaseOp::Sub
    } else if c == '>' {
        BaseOp::Mvr
    } else if c == '<' {
        BaseOp::Mvl
    } else if c == '[' {
        BaseOp::Srt
    } else if c == ']' {
        BaseOp::End
    } else if c == '.' {
        BaseOp::Out
    } else {
        BaseOp::Inp
    }
}

/// The tokens of the command characters of `s`, in order; every other
/// character is left out.
pub open spec fn commands_of(s: Seq<char>) -> Seq<BaseOp>
    decreases s.len(),
{
    if s.len() == 0 {
        Seq::empty()
    } else if is_command(s.last()) {
        commands_of(s.drop_last()).push(command_token(s.last()))
    } else {
        commands_of(s.drop_last())
    }
}

fn command_of(c: char) -> (r: Option<BaseOp>)
    ensures
        is_command(c) ==> r == Some(command_token(c)),
        !is_command(c) ==> r is None,
{
    match c {
        '+' => Some(BaseOp::Add),
        '-' => Some(BaseOp::Sub),
        '>' => Some(BaseOp::Mvr),
        '<' => Some(BaseOp::Mvl),
        '[' => Some(BaseOp::Srt),
        ']' => Some(BaseOp::End),
        '.' => Some(BaseOp::Out),
        ',' => Some(BaseOp::Inp),
        _ => None,
    }
}

/// The tokens of the compiler's lexer that stand for brainfuck commands.
pub open spec fn is_command_token(op: BaseOp) -> bool {
    op != BaseOp::CharCount && op != BaseOp::NewLine
}

/// This front end keeps exactly the command tokens of the compiler's lexer:
/// its tokens are the compiler's tokens of the same text, with those for
/// other characters and line breaks left out, in order.
pub proof fn lemma_commands_are_compiler_tokens(s: Seq<char>)
    ensures
        commands_of(s) == tokens_of(s).filter(|op: BaseOp| is_command_token(op)),
    decreases s.len(),
{
    let pred = |op: BaseOp| is_command_token(op);
    if s.len() == 0 {
        assert(tokens_of(s) =~= Seq::<BaseOp>::empty());
        assert(Seq::<BaseOp>::empty().filter(pred) =~= Seq::<BaseOp>::empty()) by {
            reveal(Seq::filter);
        }
    } else {
        let front = s.drop_last();
        lemma_commands_are_compiler_tokens(front);
        assert(tokens_of(s) =~= tokens_of(front).push(token_of(s.last())));
        tokens_of(front).lemma_filter_push(token_of(s.last()), pred);
    }
}

impl SourceProgram {
    /// Turns the source program into a stream of tokens and removes the
    /// standard starting comments.
    ///
    /// Only the eight command characters become tokens. A comment is a loop
    /// at the very start, such as `[This is a brainfuck comment, the []
    /// (loops) in it have to be matched like normal.]`: while the stream
    /// starts with `[`, the whole bracketed group is dropped (see
    /// [`strip_leading_comments`]). A starting `[` that is never closed gives
    /// the error `"Unmatched ["`.
    pub fn lex(&self) -> (r: Result<TokenStream, &'static str>)
        ensures
            match strip_leading_comments(commands_of(self.0@)) {
                Ok(rest) => r matches Ok(t) && t.0@ == rest,
                Err(_) => r matches Err(m) && m@ == "Unmatched ["@,
            },
    {
        let mut tokens: Vec<BaseOp> = Vec::new();
        for c in it: self.0.as_str().chars()
            invariant
                it.seq() == self.0@,
                tokens@ == commands_of(it.seq().take(it.index() as int)),
        {
            let ghost done = it.seq().take(it.index() as int);
            assert(it.seq().take(it.index() + 1).drop_last() =~= done);
            match command_of(c) {
                Some(op) => tokens.push(op),
                None => {},
            }
        }
        assert(self.0@.take(self.0@.len() as int) =~= self.0@);
        match crate::compiler::SourceProgram::rm_comments(TokenStream(tokens)) {
            Ok(t) => Ok(t),
            Err(_) => Err("Unmatched ["),
        }
    }
}

} // verus!
