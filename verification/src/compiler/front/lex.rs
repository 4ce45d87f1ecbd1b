//! The lexical analysis of a program.
use vstd::prelude::*;
use crate::compiler::front::objects::{BaseOp, SourceProgram, TokenStream};
use crate::error::Error;

verus! {

/// The token that a character of the source stands for.
pub open spec fn token_of(c: char) -> BaseOp {
    if c == '+' {
        BaseOp::Add
    } else if c == '-' {
        BaseOp::Sub
    } else if c == '>' {
        BaseOp::Mvr
    } else if c == '<' {
        BaseOp::Mvl
    } else if c == '[' {
        BaseOp::Srt
    } else if c == ']' {
        BaseOp::End
    } else if c == '.' {
        BaseOp::Out
    } else if c == ',' {
        BaseOp::Inp
    } else if c == '\n' {
        BaseOp::NewLine
    } else {
        BaseOp::CharCount
    }
}

/// One token for each character, in order.
pub open spec fn tokens_of(s: Seq<char>) -> Seq<BaseOp> {
    s.map_values(|c: char| token_of(c))
}

fn token_for(c: char) -> (op: BaseOp)
    ensures
        op == token_of(c),
{
    match c {
        '+' => BaseOp::Add,
        '-' => BaseOp::Sub,
        '>' => BaseOp::Mvr,
        '<' => BaseOp::Mvl,
        '[' => BaseOp::Srt,
        ']' => BaseOp::End,
        '.' => BaseOp::Out,
        ',' => BaseOp::Inp,
        '\n' => BaseOp::NewLine,
        _ => BaseOp::CharCount,
    }
}

impl SourceProgram {
    /// Turns the source program into a stream of tokens: one token for each
    /// character, other characters and line breaks included.
    pub fn lex(&self) -> (t: TokenStream)
        ensures
            t.0@ == tokens_of(self.0@),
    {
        let mut tokens: Vec<BaseOp> = Vec::new();
        for c in it: self.0.as_str().chars()
            invariant
                it.seq() == self.0@,
                tokens@ == tokens_of(it.seq().take(it.index() as int)),
        {
            let ghost done = it.seq().take(it.index() as int);
            tokens.push(token_for(c));
            assert(it.seq().take(it.index() + 1) =~= done.push(c));
        }
        TokenStream(tokens)
    }
}

/// The (line, character) position reached after the first `m` tokens: a
/// line break starts the next line at character 0, and every other token
/// moves one character on.
pub open spec fn position_after(s: Seq<BaseOp>, m: int) -> (nat, nat)
    decreases m,
{
    if m <= 0 {
        (0, 0)
    } else {
        let p = position_after(s, m - 1);
        if s[m - 1] == BaseOp::NewLine {
            ((p.0 + 1) as nat, 0)
        } else {
            (p.0, (p.1 + 1) as nat)
        }
    }
}

/// Scanning from position `j` with `depth` loops open, how many tokens it
/// takes to reach the `]` that closes the outermost one (that `]` included),
/// or `None` when the stream ends first.
pub open spec fn group_rest(s: Seq<BaseOp>, j: int, depth: nat) -> Option<nat>
    decreases s.len() - j,
{
    if j >= s.len() {
        None
    } else {
        let next_depth: nat = if s[j] == BaseOp::Srt {
            depth + 1
        } else if s[j] == BaseOp::End && depth > 0 {
            (depth - 1) as nat
        } else {
            depth
        };
        if s[j] == BaseOp::End && depth <= 1 {
            Some(1)
        } else {
            match group_rest(s, j + 1, next_depth) {
                Some(n) => Some(n + 1),
                None => None,
            }
        }
    }
}

/// Where the stream goes on after a group of `1 + n` tokens at `k` (never
/// past the end).
pub open spec fn next_group(s: Seq<BaseOp>, k: int, n: nat) -> int {
    if k + 1 + n <= s.len() {
        k + 1 + n
    } else {
        s.len() as int
    }
}

/// The stream from position `k` on without its leading comments: while it
/// starts with `[`, the bracketed group up to the matching `]` is dropped.
/// When a leading `[` is never closed, the result is the (line, character)
/// position of that `[`.
pub open spec fn strip_from(s: Seq<BaseOp>, k: int) -> Result<Seq<BaseOp>, (usize, usize)>
    decreases s.len() - k,
{
    if k < 0 || k >= s.len() {
        Ok(Seq::empty())
    } else if s[k] != BaseOp::Srt {
        Ok(s.skip(k))
    } else {
        match group_rest(s, k + 1, 1) {
            Some(n) => strip_from(s, next_group(s, k, n)),
            None => {
                let p = position_after(s, k);
                Err((p.0 as usize, p.1 as usize))
            },
        }
    }
}

/// The leading comments of a stream removed (see [`strip_from`]).
pub open spec fn strip_leading_comments(s: Seq<BaseOp>) -> Result<Seq<BaseOp>, (usize, usize)> {
    strip_from(s, 0)
}

/// A position never counts more lines and characters than tokens scanned.
pub proof fn lemma_position_bounded(s: Seq<BaseOp>, m: int)
    requires
        0 <= m <= s.len(),
    ensures
        position_after(s, m).0 + position_after(s, m).1 <= m,
    decreases m,
{
    if m > 0 {
        lemma_position_bounded(s, m - 1);
    }
}

/// What is left after removing the leading comments from position `k` on
/// is a suffix of the stream that does not start with `[`.
pub proof fn lemma_strip_from_result(s: Seq<BaseOp>, k: int)
    requires
        0 <= k,
    ensures
        strip_from(s, k) matches Ok(r) ==> (r.len() == 0 || r[0] != BaseOp::Srt) && exists|j: int|
            0 <= j <= s.len() && r == #[trigger] s.skip(j),
    decreases s.len() - k,
{
    if k >= s.len() {
        assert(Seq::<BaseOp>::empty() =~= s.skip(s.len() as int));
    } else if s[k] != BaseOp::Srt {
    } else {
        match group_rest(s, k + 1, 1) {
            Some(n) => lemma_strip_from_result(s, next_group(s, k, n)),
            None => {},
        }
    }
}

/// Removing the leading comments twice removes no more than once: what is
/// left has no leading comment.
pub proof fn lemma_strip_idempotent(s: Seq<BaseOp>)
    ensures
        strip_from(s, 0) matches Ok(r) ==> strip_from(r, 0) == Ok::<Seq<BaseOp>, (usize, usize)>(r),
{
    lemma_strip_from_result(s, 0);
    if let Ok(r) = strip_from(s, 0) {
        if r.len() > 0 {
            assert(r.skip(0) =~= r);
        } else {
            assert(r =~= Seq::<BaseOp>::empty());
        }
    }
}

/// A comment group: a `[` and everything up to the `]` that closes it.
pub open spec fn closed_group(g: Seq<BaseOp>) -> bool {
    &&& g.len() >= 1
    &&& g[0] == BaseOp::Srt
    &&& group_rest(g, 1, 1) == Some((g.len() - 1) as nat)
}

/// A scan that ends inside `a` ends the same way when more tokens follow.
proof fn lemma_group_rest_prefix(a: Seq<BaseOp>, b: Seq<BaseOp>, j: int, depth: nat)
    requires
        0 <= j,
        group_rest(a, j, depth) is Some,
    ensures
        group_rest(a + b, j, depth) == group_rest(a, j, depth),
        j + group_rest(a, j, depth)->0 <= a.len(),
    decreases a.len() - j,
{
    let next_depth: nat = if a[j] == BaseOp::Srt {
        depth + 1
    } else if a[j] == BaseOp::End && depth > 0 {
        (depth - 1) as nat
    } else {
        depth
    };
    if !(a[j] == BaseOp::End && depth <= 1) {
        lemma_group_rest_prefix(a, b, j + 1, next_depth);
    }
}

/// A scan of what follows `p` does not depend on `p`.
proof fn lemma_group_rest_shift(p: Seq<BaseOp>, t: Seq<BaseOp>, j: int, depth: nat)
    requires
        0 <= j,
    ensures
        group_rest(p + t, p.len() + j, depth) == group_rest(t, j, depth),
    decreases t.len() - j,
{
    if j < t.len() {
        assert((p + t)[p.len() + j] == t[j]);
        let next_depth: nat = if t[j] == BaseOp::Srt {
            depth + 1
        } else if t[j] == BaseOp::End && depth > 0 {
            (depth - 1) as nat
        } else {
            depth
        };
        lemma_group_rest_shift(p, t, j + 1, next_depth);
    }
}

/// Removing the leading comments of what follows `p` succeeds, with the
/// same rest, exactly when it does without `p`.
proof fn lemma_strip_shift(p: Seq<BaseOp>, t: Seq<BaseOp>, k: int)
    requires
        0 <= k,
    ensures
        match strip_from(t, k) {
            Ok(r) => strip_from(p + t, p.len() + k) == Ok::<Seq<BaseOp>, (usize, usize)>(r),
            Err(_) => strip_from(p + t, p.len() + k) is Err,
        },
    decreases t.len() - k,
{
    let s = p + t;
    if k >= t.len() {
    } else {
        assert(s[p.len() + k] == t[k]);
        if t[k] != BaseOp::Srt {
            assert(s.skip(p.len() + k) =~= t.skip(k));
        } else {
            lemma_group_rest_shift(p, t, k + 1, 1);
            match group_rest(t, k + 1, 1) {
                Some(n) => {
                    assert(next_group(s, p.len() + k, n) == p.len() + next_group(t, k, n));
                    lemma_strip_shift(p, t, next_group(t, k, n));
                },
                None => {},
            }
        }
    }
}

/// A stream that does not start with `[` has no leading comment: removing
/// the leading comments keeps all of it, in order.
pub proof fn lemma_strip_keeps_rest(t: Seq<BaseOp>)
    requires
        t.len() == 0 || t[0] != BaseOp::Srt,
    ensures
        strip_leading_comments(t) == Ok::<Seq<BaseOp>, (usize, usize)>(t),
{
    if t.len() > 0 {
        assert(t.skip(0) =~= t);
    } else {
        assert(t =~= Seq::<BaseOp>::empty());
    }
}

/// Removing the leading comments drops a comment group at the front: what
/// follows the group is treated as if the group had never been there (an
/// unclosed `[` after it is still an error).
pub proof fn lemma_strip_drops_group(g: Seq<BaseOp>, t: Seq<BaseOp>)
    requires
        closed_group(g),
    ensures
        match strip_leading_comments(t) {
            Ok(r) => strip_leading_comments(g + t) == Ok::<Seq<BaseOp>, (usize, usize)>(r),
            Err(_) => strip_leading_comments(g + t) is Err,
        },
{
    let s = g + t;
    assert(s[0] == BaseOp::Srt);
    lemma_group_rest_prefix(g, t, 1, 1);
    assert(next_group(s, 0, (g.len() - 1) as nat) == g.len());
    lemma_strip_shift(g, t, 0);
}

/// Any number of comment groups in front of a stream that does not start
/// with `[` are all dropped, and the stream is kept whole and in order.
pub proof fn lemma_strip_drops_groups(groups: Seq<Seq<BaseOp>>, t: Seq<BaseOp>)
    requires
        forall|i: int| 0 <= i < groups.len() ==> closed_group(#[trigger] groups[i]),
        t.len() == 0 || t[0] != BaseOp::Srt,
    ensures
        strip_leading_comments(groups.flatten() + t) == Ok::<Seq<BaseOp>, (usize, usize)>(t),
    decreases groups.len(),
{
    if groups.len() == 0 {
        assert(groups.flatten() + t =~= t);
        lemma_strip_keeps_rest(t);
    } else {
        let rest = groups.drop_first();
        assert forall|i: int| 0 <= i < rest.len() implies closed_group(#[trigger] rest[i]) by {
            assert(rest[i] == groups[i + 1]);
        }
        lemma_strip_drops_groups(rest, t);
        assert(groups.flatten() == groups[0] + rest.flatten());
        assert(groups.flatten() + t =~= groups[0] + (rest.flatten() + t));
        lemma_strip_drops_group(groups[0], rest.flatten() + t);
    }
}

impl SourceProgram {
    /// Removes all starting comments from a stream of tokens.
    ///
    /// A comment is a loop at the very start of the program, such as
    /// `[This is a brainfuck comment, the [] (loops) in it have to be
    /// matched like normal.]`; while the stream starts with `[`, the whole
    /// bracketed group is dropped. A starting `[` that is never closed gives
    /// [`Error::UnmatchedStart`] at the (line, character) of that `[`.
    pub fn rm_comments(tokens: TokenStream) -> (r: Result<TokenStream, Error>)
        ensures
            match strip_leading_comments(tokens.0@) {
                Ok(rest) => r matches Ok(t) && t.0@ == rest,
                Err(p) => r == Err::<TokenStream, Error>(Error::UnmatchedStart(p)),
            },
    {
        let ghost s = tokens.0@;
        let toks = &tokens.0;
        let len = toks.len();
        let mut k: usize = 0;
        let mut pos: (usize, usize) = (0, 0);
        while k < len && toks[k] == BaseOp::Srt
            invariant
                s == toks@,
                s == tokens.0@,
                len == s.len(),
                k <= len,
                strip_from(s, k as int) == strip_from(s, 0),
                pos.0 == position_after(s, k as int).0,
                pos.1 == position_after(s, k as int).1,
            decreases len - k,
        {
            // scan the group that starts at `k`
            let mut depth: usize = 1;
            let mut j: usize = k + 1;
            let start: (usize, usize) = pos;
            proof {
                lemma_position_bounded(s, k + 1);
            }
            pos = (pos.0, pos.1 + 1);
            let mut closed = false;
            while j < len && !closed
                invariant
                    s == toks@,
                    s == tokens.0@,
                    len == s.len(),
                    s[k as int] == BaseOp::Srt,
                    strip_from(s, k as int) == strip_from(s, 0),
                    k < j <= len,
                    1 <= depth <= j - k,
                    !closed ==> group_rest(s, k + 1, 1) == match group_rest(s, j as int, depth as nat) {
                        Some(n) => Some((n + (j - k - 1)) as nat),
                        None => None::<nat>,
                    },
                    closed ==> group_rest(s, k + 1, 1) == Some((j - k - 1) as nat),
                    pos.0 == position_after(s, j as int).0,
                    pos.1 == position_after(s, j as int).1,
                    start.0 == position_after(s, k as int).0,
                    start.1 == position_after(s, k as int).1,
                decreases len - j,
            {
                let op = toks[j];
                proof {
                    lemma_position_bounded(s, j + 1);
                }
                if op == BaseOp::Srt {
                    depth = depth + 1;
                } else if op == BaseOp::End {
                    if depth == 1 {
                        closed = true;
                    } else {
                        depth = depth - 1;
                    }
                }
                if op == BaseOp::NewLine {
                    pos = (pos.0 + 1, 0);
                } else {
                    pos = (pos.0, pos.1 + 1);
                }
                j = j + 1;
            }
            if !closed {
                return Err(Error::UnmatchedStart(start));
            }
            k = j;
        }
        let mut rest: Vec<BaseOp> = Vec::new();
        let mut i: usize = k;
        while i < len
            invariant
                s == toks@,
                s == tokens.0@,
                len == s.len(),
                k <= i <= len,
                rest@ == s.subrange(k as int, i as int),
            decreases len - i,
        {
            rest.push(toks[i]);
            i = i + 1;
            assert(rest@ =~= s.subrange(k as int, i as int));
        }
        assert(rest@ =~= s.skip(k as int));
        Ok(TokenStream(rest))
    }
}

} // verus!
