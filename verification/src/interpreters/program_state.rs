//! The first interpreter: a program state with a jump table that pairs each
//! `[` with the `]` that closes it, and the run of a program of the first
//! front end, one instruction at a time.
use vstd::prelude::*;
use crate::interpreters::jumps::{
    bal, closes_at, ending_entry, ending_ok, find_ending, find_opening, lemma_close_unique, lemma_open_unique, lemma_pair_table_closing,
    lemma_pair_table_entries, lemma_pair_table_opening, never_closed, opening, pair_table, pair_table_of,
};
use crate::interpreters::objects::{cell_minus, cell_plus};
use crate::interpreters::raw::reference_step;
use crate::pre_proccesser::SourceProgram;
use crate::text::{chars_of, push_char, string_of};

verus! {

/// The state of a given program.
#[derive(Debug)]
pub struct ProgramState {
    /// The program's tape.
    pub tape: [u8; 30_000],
    /// The pointer to the current cell.
    pub ptr: usize,
    /// The position in the program that the interpreter is at.
    pub pos: usize,
    /// How many loops the run has entered and not yet left.
    pub loop_num: usize,
    /// The (start, end) pairs of loops.
    pub jumps: Vec<(usize, usize)>,
}

/// What a [`ProgramState`] holds.
pub struct ProgramModel {
    pub tape: Seq<u8>,
    pub ptr: usize,
    pub pos: usize,
    pub loop_num: usize,
    pub jumps: Seq<(usize, usize)>,
}

impl View for ProgramState {
    type V = ProgramModel;

    open spec fn view(&self) -> ProgramModel {
        ProgramModel {
            tape: self.tape@,
            ptr: self.ptr,
            pos: self.pos,
            loop_num: self.loop_num,
            jumps: self.jumps@,
        }
    }
}

/// `sub(a)` undoes `add(a)`: subtracting what was added gives the state
/// back.
pub proof fn lemma_program_sub_undoes_add(m: ProgramModel, a: u8)
    requires
        m.ptr < 30_000,
        m.tape.len() == 30_000,
    ensures
        ({
            let m1 = m.with_cell(cell_plus(m.cell(), a));
            m1.with_cell(cell_minus(m1.cell(), a)) == m
        }),
{
    let m1 = m.with_cell(cell_plus(m.cell(), a));
    assert(cell_minus(m1.cell(), a) == m.cell());
    assert(m1.with_cell(cell_minus(m1.cell(), a)).tape =~= m.tape);
}

/// With the jump table of a program, a `[` on a zero cell skips its loop:
/// the position goes to the `]` that closes it.
pub proof fn lemma_program_srt_skips_to_close(m: ProgramModel, s: Seq<char>, p: int, q: int)
    requires
        m.jumps == pair_table(s),
        s.len() < usize::MAX,
        closes_at(s, p, q),
        m.pos == p,
        m.ptr < 30_000,
        m.cell() == 0,
    ensures
        m.srt_ok(1),
        m.after_srt(1) == (ProgramModel { pos: q as usize, ..m }),
{
    lemma_pair_table_opening(s, p);
    let t = pair_table(s);
    let k = opening(t, p as usize);
    lemma_pair_table_entries(s, k);
    if t[k].1 == s.len() {
        assert(bal(s, p, q + 1) >= 1);
    } else {
        lemma_close_unique(s, p, t[k].1 as int, q);
    }
}

/// With the jump table of a program, a `]` on a non-zero cell goes back to
/// just before the `[` that it closes, so that the `[` runs again, and the
/// depth goes down by one.
pub proof fn lemma_program_end_returns_to_open(m: ProgramModel, s: Seq<char>, p: int, q: int)
    requires
        m.jumps == pair_table(s),
        s.len() < usize::MAX,
        closes_at(s, p, q),
        p >= 1,
        m.pos == q,
        m.ptr < 30_000,
        m.cell() != 0,
    ensures
        m.end_ok(1),
        m.after_end(1) == (ProgramModel {
            pos: (p - 1) as usize,
            loop_num: if m.loop_num >= 1 { (m.loop_num - 1) as usize } else { 0usize },
            ..m
        }),
{
    lemma_pair_table_closing(s, p, q);
}

impl ProgramModel {
    /// The value of the current cell.
    pub open spec fn cell(self) -> u8 {
        self.tape[self.ptr as int]
    }

    /// The state with the current cell set to `v`.
    pub open spec fn with_cell(self, v: u8) -> ProgramModel {
        ProgramModel { tape: self.tape.update(self.ptr as int, v), ..self }
    }

    /// The state after `srt(times)`, on a run of `times` `[` starting at the
    /// position: when the current cell is zero the position jumps to the `]`
    /// that closes the loop opened at the position; otherwise the loops are
    /// entered and the depth goes up by `times`.
    pub open spec fn after_srt(self, times: nat) -> ProgramModel {
        let t = self.jumps;
        if times == 0 {
            self
        } else if self.cell() == 0 {
            ProgramModel { pos: t[opening(t, self.pos)].1, ..self }
        } else {
            ProgramModel { loop_num: (self.loop_num + times) as usize, ..self }
        }
    }

    /// What `srt(times)` needs to run without a fault: the current cell on
    /// the tape, a table entry for the loop when it is skipped, and a depth
    /// that fits.
    pub open spec fn srt_ok(self, times: nat) -> bool {
        times > 0 ==> {
            &&& self.ptr < 30_000
            &&& self.cell() == 0 ==> opening(self.jumps, self.pos) < self.jumps.len()
            &&& self.cell() != 0 ==> self.loop_num + times <= usize::MAX
        }
    }

    /// The state after `end(times)`, on a run of `times` `]` starting at the
    /// position: when the current cell is not zero the position goes back to
    /// just before the `[` of the loop that ends (see [`ending_entry`]), so
    /// that the `[` runs again, and the depth goes down by one; otherwise
    /// the loops are left and the depth goes down by `times` (not below
    /// zero).
    pub open spec fn after_end(self, times: nat) -> ProgramModel {
        let t = self.jumps;
        if times == 0 {
            self
        } else if self.cell() != 0 {
            ProgramModel {
                pos: (t[ending_entry(t, self.pos, self.loop_num)].0 - 1) as usize,
                loop_num: if self.loop_num >= 1 { (self.loop_num - 1) as usize } else { 0usize },
                ..self
            }
        } else {
            ProgramModel {
                loop_num: if self.loop_num >= times { (self.loop_num - times) as usize } else { 0usize },
                ..self
            }
        }
    }

    /// What `end(times)` needs to run without a fault: the current cell on
    /// the tape, and, when the loop goes back, a table entry for it whose
    /// `[` is not the first character.
    pub open spec fn end_ok(self, times: nat) -> bool {
        times > 0 ==> {
            &&& self.ptr < 30_000
            &&& self.cell() != 0 ==> ending_ok(self.jumps, self.pos, self.loop_num)
        }
    }
}

/// The text that outputting the current cell `times` times prints: the
/// cell's byte read as a character, `times` times.
pub open spec fn out_text(cell: u8, times: nat) -> Seq<char> {
    Seq::new(times, |i: int| cell as char)
}

impl ProgramState {
    /// Makes a state with a jump table from a program's source: each `[`
    /// is paired with the `]` that closes it (see [`pair_table`]).
    pub fn from_string(program: &str) -> (st: Self)
        requires
            program@.len() < usize::MAX,
        ensures
            st@.tape == Seq::new(30_000, |i: int| 0u8),
            st.ptr == 0,
            st.pos == 0,
            st.loop_num == 0,
            st@.jumps == pair_table(program@),
    {
        let chars = chars_of(program);
        let jump_table = pair_table_of(&chars);
        let tape: [u8; 30_000] = [0u8; 30_000];
        assert(tape@ =~= Seq::new(30_000, |i: int| 0u8));
        Self { loop_num: 0, tape, pos: 0, ptr: 0, jumps: jump_table }
    }

    /// Adds to the current cell, wrapping around at 256.
    pub fn add(&mut self, amount: u8) -> (r: &mut Self)
        requires
            old(self).ptr < 30_000,
        ensures
            (*r)@ == old(self)@.with_cell(cell_plus(old(self)@.cell(), amount)),
            *final(self) == *final(r),
    {
        let v = self.tape[self.ptr].wrapping_add(amount);
        self.tape[self.ptr] = v;
        self
    }

    /// Subtracts from the current cell, wrapping around at 256.
    pub fn sub(&mut self, amount: u8) -> (r: &mut Self)
        requires
            old(self).ptr < 30_000,
        ensures
            (*r)@ == old(self)@.with_cell(cell_minus(old(self)@.cell(), amount)),
            *final(self) == *final(r),
    {
        let v = self.tape[self.ptr].wrapping_sub(amount);
        self.tape[self.ptr] = v;
        self
    }

    /// Moves the pointer right.
    ///
    /// # Errors
    /// `"Cannot move past tape bounds of 30_000 cells"` if the pointer would
    /// land on cell `30_000` or past it; the state is then left as it was.
    pub fn mvr(&mut self, amount: usize) -> (r: Result<&mut Self, String>)
        ensures
            old(self).ptr + amount >= 30_000 ==> (r matches Err(e) && e@
                == "Cannot move past tape bounds of 30_000 cells"@ && *final(self) == *old(self)),
            old(self).ptr + amount < 30_000 ==> (r matches Ok(s) && (*s)@ == (ProgramModel {
                ptr: (old(self).ptr + amount) as usize,
                ..old(self)@
            }) && *final(self) == *final(s)),
    {
        let target = match self.ptr.checked_add(amount) {
            Some(p) => p,
            None => 30_000,
        };
        if target >= 30_000 {
            return Err(string_of("Cannot move past tape bounds of 30_000 cells"));
        }
        self.ptr = target;
        Ok(self)
    }

    /// Moves the pointer left.
    ///
    /// # Errors
    /// `"Cannot move to negative tape addresses"` if the pointer would pass
    /// cell 0; the state is then left as it was.
    pub fn mvl(&mut self, amount: usize) -> (r: Result<&mut Self, String>)
        ensures
            amount > old(self).ptr ==> (r matches Err(e) && e@ == "Cannot move to negative tape addresses"@
                && *final(self) == *old(self)),
            amount <= old(self).ptr ==> (r matches Ok(s) && (*s)@ == (ProgramModel {
                ptr: (old(self).ptr - amount) as usize,
                ..old(self)@
            }) && *final(self) == *final(s)),
    {
        if amount > self.ptr {
            return Err(string_of("Cannot move to negative tape addresses"));
        }
        self.ptr = self.ptr - amount;
        Ok(self)
    }

    /// Starts a loop, `times` times over (see [`ProgramModel::after_srt`]).
    pub fn srt(&mut self, times: usize) -> (r: &mut Self)
        requires
            old(self)@.srt_ok(times as nat),
        ensures
            (*r)@ == old(self)@.after_srt(times as nat),
            *final(self) == *final(r),
    {
        if times > 0 {
            if self.tape[self.ptr] == 0 {
                let k = find_opening(&self.jumps, self.pos);
                self.pos = self.jumps[k].1;
            } else {
                self.loop_num = self.loop_num + times;
            }
        }
        self
    }

    /// Ends a loop, `times` times over (see [`ProgramModel::after_end`]).
    pub fn end(&mut self, times: usize) -> (r: &mut Self)
        requires
            old(self)@.end_ok(times as nat),
        ensures
            (*r)@ == old(self)@.after_end(times as nat),
            *final(self) == *final(r),
    {
        if times > 0 {
            if self.tape[self.ptr] != 0 {
                if let Some(k) = find_ending(&self.jumps, self.pos, self.loop_num) {
                    self.pos = self.jumps[k].0 - 1;
                }
                self.loop_num = self.loop_num.saturating_sub(1);
            } else {
                self.loop_num = self.loop_num.saturating_sub(times);
            }
        }
        self
    }

    /// The text that outputting the current cell `times` times prints.
    pub fn out_text(&self, times: usize) -> (text: String)
        requires
            times > 0 ==> self.ptr < 30_000,
        ensures
            text@ == out_text(self@.cell(), times as nat),
    {
        let mut text = String::new();
        let mut i: usize = 0;
        while i < times
            invariant
                i <= times,
                times > 0 ==> self.ptr < 30_000,
                text@ == out_text(self@.cell(), i as nat),
            decreases times - i,
        {
            push_char(&mut text, self.tape[self.ptr] as char);
            i = i + 1;
            assert(text@ =~= out_text(self@.cell(), i as nat));
        }
        text
    }

    /// Stores a byte read from the input in the current cell.
    pub fn store_byte(&mut self, byte: u8) -> (r: &mut Self)
        requires
            old(self).ptr < 30_000,
        ensures
            (*r)@ == old(self)@.with_cell(byte),
            *final(self) == *final(r),
    {
        self.tape[self.ptr] = byte;
        self
    }
}

/// What one step of a run asks of the outside world.
#[derive(Debug, PartialEq, Eq)]
pub enum ProgramStep {
    /// The run has reached its end: every character up to the last one has
    /// been interpreted.
    Finished,
    /// An instruction ran; nothing is owed to the outside world.
    Continue,
    /// `.` ran: this character is to be printed.
    Print(char),
    /// `,` ran: one byte is to be read from the standard input and stored
    /// with [`ProgramState::store_byte`].
    Input,
    /// The run stops with this message.
    Failed(String),
}

/// A run of a program of the first front end: its state and characters.
pub struct ProgramRun {
    pub state: ProgramState,
    pub chars: Vec<char>,
}

/// The state after `c` was interpreted (the position not yet advanced), and
/// the message it failed with, if any.
pub open spec fn program_char(m: ProgramModel, c: char) -> (ProgramModel, Option<Seq<char>>) {
    if c == '+' {
        (m.with_cell(cell_plus(m.cell(), 1)), None)
    } else if c == '-' {
        (m.with_cell(cell_minus(m.cell(), 1)), None)
    } else if c == '<' {
        if m.ptr < 1 {
            (m, Some("Cannot move to negative tape addresses"@))
        } else {
            (ProgramModel { ptr: (m.ptr - 1) as usize, ..m }, None)
        }
    } else if c == '>' {
        if m.ptr + 1 >= 30_000 {
            (m, Some("Cannot move past tape bounds of 30_000 cells"@))
        } else {
            (ProgramModel { ptr: (m.ptr + 1) as usize, ..m }, None)
        }
    } else if c == '[' {
        (m.after_srt(1), None)
    } else if c == ']' {
        (m.after_end(1), None)
    } else {
        (m, None)
    }
}

/// With the jump table of a program, a `[` that no `]` closes, on a zero
/// cell, sends the position to the end of the program.
pub proof fn lemma_program_srt_unclosed_goes_to_end(m: ProgramModel, s: Seq<char>, p: int)
    requires
        m.jumps == pair_table(s),
        s.len() < usize::MAX,
        never_closed(s, p),
        m.pos == p,
        m.ptr < 30_000,
        m.cell() == 0,
    ensures
        m.srt_ok(1),
        m.after_srt(1) == (ProgramModel { pos: s.len() as usize, ..m }),
{
    lemma_pair_table_opening(s, p);
    let t = pair_table(s);
    let k = opening(t, p as usize);
    lemma_pair_table_entries(s, k);
    if t[k].1 < s.len() {
        assert(bal(s, p, t[k].1 + 1) >= 1);
    }
}

/// With the jump table of its program, a step of this interpreter is a step
/// of the plain brainfuck machine (see [`reference_step`]), but for a `]`
/// on a non-zero cell: that one goes back to the `[` it closes, which then
/// runs again on the same non-zero cell and moves on to where the machine
/// went. A pointer error comes exactly when the machine leaves the tape.
/// (Left out: `,`, which waits for input, and a `]` on a non-zero cell that
/// closes no `[` after the first character.)
pub proof fn lemma_program_step_is_reference_step(m: ProgramModel, s: Seq<char>)
    requires
        m.jumps == pair_table(s),
        s.len() < usize::MAX,
        m.tape.len() == 30_000,
        m.ptr < 30_000,
        m.pos < s.len(),
        s[m.pos as int] != ',',
        s[m.pos as int] == ']' && m.cell() != 0 ==> exists|p: int| p >= 1 && closes_at(s, p, m.pos as int),
    ensures
        ({
            let c = s[m.pos as int];
            let (after, err) = program_char(m, c);
            match reference_step(s, m.tape, m.ptr as int, m.pos as int) {
                Some((tape, ptr, pos)) => {
                    &&& err is None
                    &&& after.tape == tape
                    &&& after.ptr == ptr
                    &&& if c == ']' && m.cell() != 0 {
                        let next = ProgramModel { pos: (after.pos + 1) as usize, ..after };
                        &&& next.pos == pos - 1
                        &&& s[pos - 1] == '['
                        &&& next.srt_ok(1)
                        &&& next.after_srt(1).pos == next.pos
                    } else {
                        after.pos + 1 == pos
                    }
                },
                None => err is Some,
            }
        }),
{
    let c = s[m.pos as int];
    let p = m.pos as int;
    if c == '[' && m.cell() == 0 {
        if exists|q: int| closes_at(s, p, q) {
            let q = choose|q: int| closes_at(s, p, q);
            lemma_program_srt_skips_to_close(m, s, p, q);
        } else {
            lemma_pair_table_opening(s, p);
            let t = pair_table(s);
            lemma_pair_table_entries(s, opening(t, p as usize));
            lemma_program_srt_unclosed_goes_to_end(m, s, p);
        }
    } else if c == ']' && m.cell() != 0 {
        let o = choose|o: int| o >= 1 && closes_at(s, o, p);
        lemma_program_end_returns_to_open(m, s, o, p);
        let o2 = choose|o: int| closes_at(s, o, p);
        lemma_open_unique(s, o, o2, p);
    }
}

/// A step never takes the pointer off the tape: a move that would leave it
/// fails instead, and the tape keeps its 30 000 cells.
pub proof fn lemma_program_step_keeps_pointer_on_tape(m: ProgramModel, c: char)
    requires
        m.ptr < 30_000,
        m.tape.len() == 30_000,
    ensures
        program_char(m, c).0.ptr < 30_000,
        program_char(m, c).0.tape.len() == 30_000,
{
}

impl ProgramRun {
    /// The character at the current position.
    pub open spec fn current(&self) -> char {
        self.chars@[self.state.pos as int]
    }

    /// What the next step needs to run without a fault: the current cell on
    /// the tape where the instruction reads it, a table entry for the loop
    /// where a jump is taken, and a position that does not overflow.
    pub open spec fn step_ok(&self) -> bool {
        let m = self.state@;
        let c = self.current();
        self.state.pos < self.chars@.len() ==> {
            &&& (c == '+' || c == '-' || c == '.' || c == ',') ==> m.ptr < 30_000
            &&& c == '[' ==> m.srt_ok(1)
            &&& c == ']' ==> m.end_ok(1)
            &&& program_char(m, c).0.pos < usize::MAX
        }
    }

    /// Runs the instruction at the current position; see [`ProgramStep`]
    /// for what it asks of the outside world. A failure leaves the position
    /// where it was.
    pub fn step(&mut self) -> (r: ProgramStep)
        requires
            old(self).step_ok(),
        ensures
            final(self).chars@ == old(self).chars@,
            old(self).state.pos >= old(self).chars@.len() ==> r == ProgramStep::Finished
                && final(self).state@ == old(self).state@,
            old(self).state.pos < old(self).chars@.len() ==> ({
                let c = old(self).current();
                let (after, err) = program_char(old(self).state@, c);
                match err {
                    Some(msg) => (r matches ProgramStep::Failed(m) && m@ == msg) && final(self).state@
                        == after,
                    None => final(self).state@ == (ProgramModel {
                        pos: (after.pos + 1) as usize,
                        ..after
                    }) && r == (if c == '.' {
                        ProgramStep::Print(old(self).state@.cell() as char)
                    } else if c == ',' {
                        ProgramStep::Input
                    } else {
                        ProgramStep::Continue
                    }),
                }
            }),
    {
        if self.state.pos >= self.chars.len() {
            return ProgramStep::Finished;
        }
        let c = self.chars[self.state.pos];
        let mut request = ProgramStep::Continue;
        if c == '+' {
            self.state.add(1);
        } else if c == '-' {
            self.state.sub(1);
        } else if c == '<' {
            if let Err(e) = self.state.mvl(1) {
                return ProgramStep::Failed(e);
            }
        } else if c == '>' {
            if let Err(e) = self.state.mvr(1) {
                return ProgramStep::Failed(e);
            }
        } else if c == '[' {
            self.state.srt(1);
        } else if c == ']' {
            self.state.end(1);
        } else if c == '.' {
            request = ProgramStep::Print(self.state.tape[self.state.ptr] as char);
        } else if c == ',' {
            request = ProgramStep::Input;
        }
        self.state.pos = self.state.pos + 1;
        request
    }

    /// Whether the next step can run without a fault (see
    /// [`ProgramRun::step_ok`]).
    pub fn can_step(&self) -> (b: bool)
        ensures
            b == self.step_ok(),
    {
        let len = self.chars.len();
        let pos = self.state.pos;
        if pos >= len {
            return true;
        }
        let c = self.chars[pos];
        let ptr = self.state.ptr;
        let jumps = &self.state.jumps;
        if c == '+' || c == '-' || c == '.' || c == ',' {
            return ptr < 30_000;
        }
        if c == '[' {
            if ptr >= 30_000 {
                return false;
            }
            if self.state.tape[ptr] == 0 {
                let k = find_opening(jumps, pos);
                if k >= jumps.len() {
                    return false;
                }
                return jumps[k].1 < usize::MAX;
            }
            return self.state.loop_num < usize::MAX;
        }
        if c == ']' {
            if ptr >= 30_000 {
                return false;
            }
            if self.state.tape[ptr] != 0 {
                return find_ending(jumps, pos, self.state.loop_num).is_some();
            }
            return true;
        }
        true
    }
}

impl SourceProgram {
    /// Starts interpreting the program's source with a jump table that
    /// pairs each `[` with the `]` that closes it, at the first character.
    pub fn interpretation(&self) -> (run: ProgramRun)
        requires
            self.0@.len() < usize::MAX,
        ensures
            run.chars@ == self.0@,
            run.state@.tape == Seq::new(30_000, |i: int| 0u8),
            run.state.ptr == 0,
            run.state.pos == 0,
            run.state.loop_num == 0,
            run.state@.jumps == pair_table(self.0@),
    {
        let state = ProgramState::from_string(self.0.as_str());
        let chars = chars_of(self.0.as_str());
        ProgramRun { state, chars }
    }
}

} // verus!
