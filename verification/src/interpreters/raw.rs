//! Interpreting a program from its source, one instruction at a time.
//!
//! A run is a state machine: [`SourceProgram::interpretation`] starts it and
//! [`Interpretation::step`] runs one instruction and says what the outside
//! world has to do next (write a byte, read a key, stop).
use vstd::prelude::*;
use crate::compiler::SourceProgram;
use crate::error::Error;
use crate::interpreters::jumps::{
    closes_at, find_ending, find_opening, lemma_open_unique, lemma_pair_table_entries, lemma_pair_table_opening, opening,
    pair_table,
};
use crate::interpreters::objects::{
    cell_minus, cell_plus, lemma_end_returns_to_open, lemma_srt_skips_to_close, lemma_srt_unclosed_goes_to_end,
    Jump, JumpModel, State, StateModel,
};
use crate::text::chars_of;

verus! {

/// What one step of interpretation asks of the outside world.
#[derive(Debug, PartialEq, Eq)]
pub enum Step {
    /// The run has reached its end: every character up to the last one has
    /// been interpreted.
    Finished,
    /// An instruction ran; nothing is owed to the outside world.
    Continue,
    /// `.` ran: this byte is to be written to the output and flushed.
    Output(u8),
    /// `,` ran: a character is to be read from the keyboard and stored in
    /// the current cell with [`State::store_key`].
    Input,
    /// The run stops with this error.
    Failed(Error),
}

/// A run of a program: its state and its characters.
pub struct Interpretation {
    pub state: State,
    pub chars: Vec<char>,
}

/// Whether a run at position `pos` over `len` characters has finished: it
/// has gone past the last character.
pub open spec fn finished(pos: usize, len: nat) -> bool {
    pos >= len
}

/// The (line, character) position of the character at index `p` of the
/// program text, as error messages give it: lines count from 0 and
/// characters within a line from 1; a line break starts the next line.
pub open spec fn text_position(s: Seq<char>, p: int) -> (nat, nat)
    decreases p,
{
    if p <= 0 {
        (0, 1)
    } else {
        let q = text_position(s, p - 1);
        if s[p - 1] == '\n' {
            ((q.0 + 1) as nat, 1)
        } else {
            (q.0, (q.1 + 1) as nat)
        }
    }
}

proof fn lemma_text_position_bounded(s: Seq<char>, p: int)
    requires
        0 <= p,
    ensures
        text_position(s, p).0 + text_position(s, p).1 <= p + 1,
    decreases p,
{
    if p > 0 {
        lemma_text_position_bounded(s, p - 1);
    }
}

/// The (line, character) position of the character at index `p` (see
/// [`text_position`]).
pub fn position_in(chars: &Vec<char>, p: usize) -> (r: (usize, usize))
    requires
        p < chars@.len(),
    ensures
        r.0 == text_position(chars@, p as int).0,
        r.1 == text_position(chars@, p as int).1,
{
    let len = chars.len();
    let mut line: usize = 0;
    let mut col: usize = 1;
    let mut i: usize = 0;
    while i < p
        invariant
            len == chars@.len(),
            i <= p < len,
            line == text_position(chars@, i as int).0,
            col == text_position(chars@, i as int).1,
        decreases p - i,
    {
        proof {
            lemma_text_position_bounded(chars@, i + 1);
        }
        if chars[i] == '\n' {
            line = line + 1;
            col = 1;
        } else {
            col = col + 1;
        }
        i = i + 1;
    }
    (line, col)
}

/// The state after `c` was interpreted (the position not yet advanced), and
/// the error it ended in, if any. `line`, `col` is where errors are placed.
pub open spec fn run_char(m: StateModel, c: char, line: usize, col: usize) -> (StateModel, Option<Error>) {
    if c == '+' {
        (m.with_cell(cell_plus(m.cell(), 1)), None)
    } else if c == '-' {
        (m.with_cell(cell_minus(m.cell(), 1)), None)
    } else if c == '<' {
        match m.after_mvl(1) {
            Some(moved) => (moved, None),
            None => (m, Some(Error::NegativeAddress((line, col)))),
        }
    } else if c == '>' {
        match m.after_mvr(1) {
            Some(moved) => (moved, None),
            None => (m, Some(Error::TooLargeAddress((line, col)))),
        }
    } else if c == '[' {
        (m.after_srt(1), None)
    } else if c == ']' {
        let (after, failed) = m.after_end(1);
        (after, if failed { Some(Error::UnmatchedEnd((line, col))) } else { None })
    } else {
        (m, None)
    }
}

/// What a step on character `c` asks of the outside world, when it did not
/// fail.
pub open spec fn request_of(m: StateModel, c: char) -> Step {
    if c == '.' {
        Step::Output(m.cell())
    } else if c == ',' {
        Step::Input
    } else {
        Step::Continue
    }
}

/// One step of the plain brainfuck machine on program `s`, from the tape,
/// pointer and position given, for every instruction but `,`: `+` and `-`
/// change the current cell (wrapping), `<` and `>` move the pointer, `[` on
/// a zero cell goes past the `]` that closes it (past the end of the
/// program when none does), `]` on a non-zero cell goes back past the `[`
/// it closes, and anything else is passed over. `None` when the pointer
/// would leave the tape of 30 000 cells.
pub open spec fn reference_step(s: Seq<char>, tape: Seq<u8>, ptr: int, pos: int) -> Option<
    (Seq<u8>, int, int),
> {
    let c = s[pos];
    if c == '+' {
        Some((tape.update(ptr, cell_plus(tape[ptr], 1)), ptr, pos + 1))
    } else if c == '-' {
        Some((tape.update(ptr, cell_minus(tape[ptr], 1)), ptr, pos + 1))
    } else if c == '<' {
        if ptr < 1 {
            None
        } else {
            Some((tape, ptr - 1, pos + 1))
        }
    } else if c == '>' {
        if ptr + 1 >= 30_000 {
            None
        } else {
            Some((tape, ptr + 1, pos + 1))
        }
    } else if c == '[' && tape[ptr] == 0 {
        if exists|q: int| closes_at(s, pos, q) {
            Some((tape, ptr, (choose|q: int| closes_at(s, pos, q)) + 1))
        } else {
            Some((tape, ptr, s.len() as int + 1))
        }
    } else if c == ']' && tape[ptr] != 0 {
        Some((tape, ptr, (choose|p: int| closes_at(s, p, pos)) + 1))
    } else {
        Some((tape, ptr, pos + 1))
    }
}

/// What a step asks of the outside world: `.` writes exactly the byte in the
/// current cell, `,` asks for input, and every other instruction asks for
/// nothing.
pub proof fn lemma_step_requests(m: StateModel, c: char)
    ensures
        c == '.' ==> request_of(m, c) == Step::Output(m.tape[m.ptr as int]),
        c == ',' ==> request_of(m, c) == Step::Input,
        c != '.' && c != ',' ==> request_of(m, c) == Step::Continue,
{
}

/// With the jump table of its program, a step of the interpreter is a step
/// of the plain brainfuck machine (see [`reference_step`]), but for a `]` on
/// a non-zero cell: that one goes back to just before the `[` it closes,
/// whose `[` then runs again on the same non-zero cell and moves on to where
/// the machine went. A pointer error comes exactly when the machine leaves
/// the tape. (Left out: `,`, which waits for input, and a `]` on a non-zero
/// cell that closes no `[` after the first character.)
pub proof fn lemma_step_is_reference_step(m: StateModel, s: Seq<char>, line: usize, col: usize)
    requires
        m.jumps == JumpModel::Table(pair_table(s)),
        s.len() < usize::MAX,
        m.tape.len() == 30_000,
        m.ptr < 30_000,
        m.pos < s.len(),
        s[m.pos as int] != ',',
        s[m.pos as int] == ']' && m.cell() != 0 ==> exists|p: int| p >= 1 && closes_at(s, p, m.pos as int),
    ensures
        ({
            let c = s[m.pos as int];
            let (after, err) = run_char(m, c, line, col);
            match reference_step(s, m.tape, m.ptr as int, m.pos as int) {
                Some((tape, ptr, pos)) => {
                    &&& err is None
                    &&& after.tape == tape
                    &&& after.ptr == ptr
                    &&& if c == ']' && m.cell() != 0 {
                        let next = StateModel { pos: (after.pos + 1) as usize, ..after };
                        &&& next.pos == pos - 1
                        &&& s[pos - 1] == '['
                        &&& next.srt_ok(1)
                        &&& next.after_srt(1).pos == next.pos
                    } else {
                        after.pos + 1 == pos
                    }
                },
                None => err == Some(Error::NegativeAddress((line, col))) || err == Some(
                    Error::TooLargeAddress((line, col)),
                ),
            }
        }),
{
    let c = s[m.pos as int];
    let p = m.pos as int;
    if c == '[' && m.cell() == 0 {
        if exists|q: int| closes_at(s, p, q) {
            let q = choose|q: int| closes_at(s, p, q);
            lemma_srt_skips_to_close(m, s, p, q);
        } else {
            lemma_pair_table_opening(s, p);
            let t = pair_table(s);
            lemma_pair_table_entries(s, opening(t, p as usize));
            lemma_srt_unclosed_goes_to_end(m, s, p);
        }
    } else if c == ']' && m.cell() != 0 {
        let o = choose|o: int| o >= 1 && closes_at(s, o, p);
        lemma_end_returns_to_open(m, s, o, p);
        let o2 = choose|o: int| closes_at(s, o, p);
        lemma_open_unique(s, o, o2, p);
    }
}

impl Interpretation {
    /// The character at the current position.
    pub open spec fn current(&self) -> char {
        self.chars@[self.state.pos as int]
    }

    /// What the next step needs to run without a fault: the current cell
    /// on the tape where the instruction reads it, a table entry for the
    /// loop where a jump is taken, and a position that does not overflow.
    pub open spec fn step_ok(&self) -> bool {
        let m = self.state@;
        let c = self.current();
        !finished(self.state.pos, self.chars@.len()) ==> {
            &&& (c == '+' || c == '-' || c == '.' || c == ',') ==> m.ptr < 30_000
            &&& c == '[' ==> m.srt_ok(1)
            &&& c == ']' ==> m.end_ok(1)
            &&& run_char(m, c, 0, 0).0.pos < usize::MAX
        }
    }

    /// Whether the next step can run without a fault (see
    /// [`Interpretation::step_ok`]).
    pub fn can_step(&self) -> (b: bool)
        ensures
            b == self.step_ok(),
    {
        let len = self.chars.len();
        let pos = self.state.pos;
        if pos >= len {
            return true;
        }
        let c = self.chars[pos];
        let ptr = self.state.ptr;
        if c == '+' || c == '-' || c == '.' || c == ',' {
            return ptr < 30_000;
        }
        if c == '[' {
            match &self.state.jumps {
                Jump::Table(t) => {
                    if ptr >= 30_000 {
                        return false;
                    }
                    if self.state.tape[ptr] == 0 {
                        let k = find_opening(t, pos);
                        if k >= t.len() {
                            return false;
                        }
                        return t[k].1 < usize::MAX;
                    }
                    return self.state.loop_num < usize::MAX;
                },
                Jump::Stack(_) => {
                    return true;
                },
            }
        }
        if c == ']' {
            if ptr >= 30_000 {
                return false;
            }
            let cell = self.state.tape[ptr];
            match &self.state.jumps {
                Jump::Table(t) => {
                    if cell != 0 {
                        return find_ending(t, pos, self.state.loop_num).is_some();
                    }
                    return true;
                },
                Jump::Stack(st) => {
                    if cell != 0 && st.len() >= 1 {
                        return st[st.len() - 1] < usize::MAX;
                    }
                    return true;
                },
            }
        }
        true
    }

    /// Runs the instruction at the current position.
    ///
    /// When the run has finished nothing changes and the answer is
    /// [`Step::Finished`]. Otherwise the instruction runs on the state and
    /// the position moves on; an error, placed at the (line, character)
    /// position of the instruction in the program text (see
    /// [`text_position`]), leaves the position where it was and is answered
    /// with [`Step::Failed`].
    pub fn step(&mut self) -> (r: Step)
        requires
            old(self).step_ok(),
        ensures
            final(self).chars@ == old(self).chars@,
            finished(old(self).state.pos, old(self).chars@.len()) ==> r == Step::Finished
                && final(self).state@ == old(self).state@,
            !finished(old(self).state.pos, old(self).chars@.len()) ==> ({
                let c = old(self).current();
                let at = text_position(old(self).chars@, old(self).state.pos as int);
                let (after, err) = run_char(old(self).state@, c, at.0 as usize, at.1 as usize);
                match err {
                    Some(e) => r == Step::Failed(e) && final(self).state@ == after,
                    None => r == request_of(old(self).state@, c) && final(self).state@ == (
                    StateModel { pos: (after.pos + 1) as usize, ..after }),
                }
            }),
    {
        if self.state.pos >= self.chars.len() {
            return Step::Finished;
        }
        let pos = self.state.pos;
        let c = self.chars[pos];
        let ghost at = text_position(self.chars@, pos as int);
        proof {
            lemma_text_position_bounded(self.chars@, pos as int);
        }
        let mut request = Step::Continue;
        if c == '+' {
            self.state.add(1);
        } else if c == '-' {
            self.state.sub(1);
        } else if c == '<' {
            if self.state.ptr < 1 {
                let (line, col) = position_in(&self.chars, pos);
                return Step::Failed(Error::NegativeAddress((line, col)));
            }
            let _ = self.state.mvl(1, 0, 0);
        } else if c == '>' {
            if self.state.ptr >= 29_999 {
                let (line, col) = position_in(&self.chars, pos);
                return Step::Failed(Error::TooLargeAddress((line, col)));
            }
            let _ = self.state.mvr(1, 0, 0);
        } else if c == '[' {
            self.state.srt(1);
        } else if c == ']' {
            let (line, col) = if self.state.end_fails(1) {
                position_in(&self.chars, pos)
            } else {
                (0, 0)
            };
            if let Err(e) = self.state.end(1, line, col) {
                return Step::Failed(e);
            }
        } else if c == '.' {
            request = Step::Output(self.state.tape[self.state.ptr]);
        } else if c == ',' {
            request = Step::Input;
        }
        self.state.pos = self.state.pos + 1;
        request
    }
}

impl SourceProgram {
    /// Starts interpreting the program's source with a jump table, at the
    /// first character.
    ///
    /// The jump table pairs each `[` with the `]` that closes it (see
    /// [`pair_table`]).
    pub fn interpretation(&self) -> (run: Interpretation)
        requires
            self.0@.len() < usize::MAX,
        ensures
            run.chars@ == self.0@,
            run.state@.tape == Seq::new(30_000, |i: int| 0u8),
            run.state.ptr == 0,
            run.state.pos == 0,
            run.state.loop_num == 0,
            run.state@.jumps == JumpModel::Table(pair_table(self.0@)),
    {
        let state = State::from_string(self.0.as_str());
        let chars = chars_of(self.0.as_str());
        Interpretation { state, chars }
    }
}

} // verus!
