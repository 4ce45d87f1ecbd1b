//! The state of a running program: its tape, pointer, position and jumps,
//! with the operations that the brainfuck commands perform on it.
use vstd::prelude::*;
use crate::error::{Error, Result};
use crate::interpreters::jumps::{
    bal, closes_at, ending_entry, ending_ok, find_ending, find_opening, lemma_close_unique, lemma_pair_table_closing,
    lemma_pair_table_entries, lemma_pair_table_opening, never_closed, opening, pair_table, pair_table_of,
};
use crate::text::chars_of;

verus! {

/// Whether loops are resolved with a jump stack or a jump table.
#[derive(Debug)]
pub enum Jump {
    /// A stack of jumps, better for smaller programs or REPLs.
    Stack(Vec<usize>),
    /// A table of jumps, better for larger programs or for speed.
    Table(Vec<(usize, usize)>),
}

/// What a [`Jump`] holds.
pub enum JumpModel {
    /// The positions on the stack, bottom first.
    Stack(Seq<usize>),
    /// The (start, end) pairs of the table.
    Table(Seq<(usize, usize)>),
}

impl View for Jump {
    type V = JumpModel;

    open spec fn view(&self) -> JumpModel {
        match self {
            Jump::Stack(s) => JumpModel::Stack(s@),
            Jump::Table(t) => JumpModel::Table(t@),
        }
    }
}

/// The state of a given program.
#[derive(Debug)]
pub struct State {
    /// The program's tape, in which all of the cells are stored.
    pub tape: [u8; 30_000],
    /// The pointer to the cell that most commands work on.
    pub ptr: usize,
    /// The position in the program that the interpreter is at.
    pub pos: usize,
    /// How many loops the run has entered and not yet left.
    pub loop_num: usize,
    /// The stack or table of jumps.
    pub jumps: Jump,
}

/// What a [`State`] holds.
pub struct StateModel {
    pub tape: Seq<u8>,
    pub ptr: usize,
    pub pos: usize,
    pub loop_num: usize,
    pub jumps: JumpModel,
}

impl View for State {
    type V = StateModel;

    open spec fn view(&self) -> StateModel {
        StateModel {
            tape: self.tape@,
            ptr: self.ptr,
            pos: self.pos,
            loop_num: self.loop_num,
            jumps: self.jumps@,
        }
    }
}

/// `x + y` on a cell, wrapping around at 256.
pub open spec fn cell_plus(x: u8, y: u8) -> u8 {
    ((x + y) % 256) as u8
}

/// `x - y` on a cell, wrapping around at 256.
pub open spec fn cell_minus(x: u8, y: u8) -> u8 {
    ((x - y + 256) % 256) as u8
}

impl StateModel {
    /// The value of the current cell.
    pub open spec fn cell(self) -> u8 {
        self.tape[self.ptr as int]
    }

    /// The state with the current cell set to `v`.
    pub open spec fn with_cell(self, v: u8) -> StateModel {
        StateModel { tape: self.tape.update(self.ptr as int, v), ..self }
    }

    /// The state after `srt(times)`, on a run of `times` `[` starting at
    /// the position.
    ///
    /// With a table: when the current cell is zero the position jumps to the
    /// `]` that closes the loop opened at the position; otherwise the loops
    /// are entered and the depth goes up by `times`. With a stack: the
    /// position is pushed `times` times.
    pub open spec fn after_srt(self, times: nat) -> StateModel {
        match self.jumps {
            JumpModel::Table(t) => if times == 0 {
                self
            } else if self.cell() == 0 {
                StateModel { pos: t[opening(t, self.pos)].1, ..self }
            } else {
                StateModel { loop_num: (self.loop_num + times) as usize, ..self }
            },
            JumpModel::Stack(st) => StateModel {
                jumps: JumpModel::Stack(st + Seq::new(times, |i: int| self.pos)),
                ..self
            },
        }
    }

    /// What `srt(times)` needs to run without a fault: the current cell on
    /// the tape, a table entry for the loop when it is skipped, and a depth
    /// that fits.
    pub open spec fn srt_ok(self, times: nat) -> bool {
        match self.jumps {
            JumpModel::Table(t) => times > 0 ==> {
                &&& self.ptr < 30_000
                &&& self.cell() == 0 ==> opening(t, self.pos) < t.len()
                &&& self.cell() != 0 ==> self.loop_num + times <= usize::MAX
            },
            JumpModel::Stack(st) => true,
        }
    }

    /// The state after `end(times, ..)`, on a run of `times` `]` starting at
    /// the position, and whether it ended in [`Error::UnmatchedEnd`].
    ///
    /// With a table: when the current cell is not zero the position goes
    /// back to just before the `[` of the loop that ends (see
    /// [`ending_entry`]), so that the `[` runs again, and the depth goes down
    /// by one; otherwise the loops are left and the depth goes down by
    /// `times` (not below zero). With a stack: an empty stack is the error; when the
    /// current cell is not zero the position jumps back to the last `[`
    /// pushed, which stays on the stack while the loop runs; otherwise
    /// `times` positions are popped, and running out of them is the error.
    pub open spec fn after_end(self, times: nat) -> (StateModel, bool) {
        match self.jumps {
            JumpModel::Table(t) => if times == 0 {
                (self, false)
            } else if self.cell() != 0 {
                (
                    StateModel {
                        pos: (t[ending_entry(t, self.pos, self.loop_num)].0 - 1) as usize,
                        loop_num: if self.loop_num >= 1 {
                            (self.loop_num - 1) as usize
                        } else {
                            0usize
                        },
                        ..self
                    },
                    false,
                )
            } else {
                (
                    StateModel {
                        loop_num: if self.loop_num >= times {
                            (self.loop_num - times) as usize
                        } else {
                            0usize
                        },
                        ..self
                    },
                    false,
                )
            },
            JumpModel::Stack(st) => if times == 0 {
                (self, false)
            } else if st.len() == 0 {
                (self, true)
            } else if self.cell() != 0 {
                (StateModel { pos: st.last(), ..self }, false)
            } else if times <= st.len() {
                (StateModel { jumps: JumpModel::Stack(st.take(st.len() - times)), ..self }, false)
            } else {
                (StateModel { jumps: JumpModel::Stack(Seq::empty()), ..self }, true)
            },
        }
    }

    /// The state after moving the pointer right by `amount`, or `None` when
    /// it would reach an address of `30_000` or more.
    pub open spec fn after_mvr(self, amount: nat) -> Option<StateModel> {
        if self.ptr + amount >= 30_000 {
            None
        } else {
            Some(StateModel { ptr: (self.ptr + amount) as usize, ..self })
        }
    }

    /// The state after moving the pointer left by `amount`, or `None` when
    /// it would pass cell 0.
    pub open spec fn after_mvl(self, amount: nat) -> Option<StateModel> {
        if amount > self.ptr {
            None
        } else {
            Some(StateModel { ptr: (self.ptr - amount) as usize, ..self })
        }
    }

    /// What `end(times, ..)` needs to run without a fault: the current cell
    /// on the tape, and a table entry for the loop when it jumps back.
    pub open spec fn end_ok(self, times: nat) -> bool {
        times > 0 ==> {
            &&& self.ptr < 30_000
            &&& match self.jumps {
                JumpModel::Table(t) => self.cell() != 0 ==> ending_ok(t, self.pos, self.loop_num),
                JumpModel::Stack(_) => true,
            }
        }
    }
}

/// `sub(a)` undoes `add(a)`: subtracting what was added gives the state
/// back.
pub proof fn lemma_sub_undoes_add(m: StateModel, a: u8)
    requires
        m.ptr < 30_000,
        m.tape.len() == 30_000,
    ensures
        ({
            let m1 = m.with_cell(cell_plus(m.cell(), a));
            m1.with_cell(cell_minus(m1.cell(), a)) == m
        }),
{
    let m1 = m.with_cell(cell_plus(m.cell(), a));
    assert(cell_minus(m1.cell(), a) == m.cell());
    assert(m1.with_cell(cell_minus(m1.cell(), a)).tape =~= m.tape);
}

/// `add(a)` undoes `sub(a)`: adding what was subtracted gives the state
/// back.
pub proof fn lemma_add_undoes_sub(m: StateModel, a: u8)
    requires
        m.ptr < 30_000,
        m.tape.len() == 30_000,
    ensures
        ({
            let m1 = m.with_cell(cell_minus(m.cell(), a));
            m1.with_cell(cell_plus(m1.cell(), a)) == m
        }),
{
    let m1 = m.with_cell(cell_minus(m.cell(), a));
    assert(cell_plus(m1.cell(), a) == m.cell());
    assert(m1.with_cell(cell_plus(m1.cell(), a)).tape =~= m.tape);
}

/// A move left by the same amount undoes a move right that succeeded, and
/// a move right undoes a move left that succeeded.
pub proof fn lemma_moves_undo(m: StateModel, a: nat)
    ensures
        m.after_mvr(a) matches Some(m1) ==> m1.after_mvl(a) == Some(m),
        m.after_mvl(a) matches Some(m1) ==> (m.ptr < 30_000 ==> m1.after_mvr(a) == Some(m)),
{
}

/// On a jump stack, a loop that is not entered closes as it opened:
/// `end(t)` on a zero cell pops what `srt(t)` pushed, and nothing fails.
pub proof fn lemma_end_undoes_srt_on_stack(m: StateModel, t: nat)
    requires
        m.jumps is Stack,
        m.cell() == 0,
    ensures
        m.after_srt(t).after_end(t) == (m, false),
{
    if let JumpModel::Stack(st) = m.jumps {
        let pushed = st + Seq::new(t, |i: int| m.pos);
        assert(pushed.take(pushed.len() - t) =~= st);
    }
}

/// On a jump stack, a running loop goes back to its start and stays open:
/// after `srt(1)`, `end(1)` on a non-zero cell jumps back to the position
/// of the `[` and keeps it on the stack.
pub proof fn lemma_end_repeats_loop_on_stack(m: StateModel)
    requires
        m.jumps is Stack,
        m.cell() != 0,
    ensures
        m.after_srt(1).after_end(1) == (m.after_srt(1), false),
{
}

/// With the jump table of a program, a `[` on a zero cell skips its loop:
/// the position goes to the `]` that closes it.
pub proof fn lemma_srt_skips_to_close(m: StateModel, s: Seq<char>, p: int, q: int)
    requires
        m.jumps == JumpModel::Table(pair_table(s)),
        s.len() < usize::MAX,
        closes_at(s, p, q),
        m.pos == p,
        m.ptr < 30_000,
        m.cell() == 0,
    ensures
        m.srt_ok(1),
        m.after_srt(1) == (StateModel { pos: q as usize, ..m }),
{
    lemma_pair_table_opening(s, p);
    let t = pair_table(s);
    let k = opening(t, p as usize);
    lemma_pair_table_entries(s, k);
    if t[k].1 == s.len() {
        assert(bal(s, p, q + 1) >= 1);
    } else {
        lemma_close_unique(s, p, t[k].1 as int, q);
    }
}

/// With the jump table of a program, a `]` on a non-zero cell goes back to
/// just before the `[` that it closes, so that the `[` runs again, the depth
/// goes down by one, and nothing fails.
pub proof fn lemma_end_returns_to_open(m: StateModel, s: Seq<char>, p: int, q: int)
    requires
        m.jumps == JumpModel::Table(pair_table(s)),
        s.len() < usize::MAX,
        closes_at(s, p, q),
        p >= 1,
        m.pos == q,
        m.ptr < 30_000,
        m.cell() != 0,
    ensures
        m.end_ok(1),
        m.after_end(1) == (StateModel {
            pos: (p - 1) as usize,
            loop_num: if m.loop_num >= 1 { (m.loop_num - 1) as usize } else { 0usize },
            ..m
        }, false),
{
    lemma_pair_table_closing(s, p, q);
}

/// With the jump table of a program, a `[` that no `]` closes, on a zero
/// cell, sends the position to the end of the program.
pub proof fn lemma_srt_unclosed_goes_to_end(m: StateModel, s: Seq<char>, p: int)
    requires
        m.jumps == JumpModel::Table(pair_table(s)),
        s.len() < usize::MAX,
        never_closed(s, p),
        m.pos == p,
        m.ptr < 30_000,
        m.cell() == 0,
    ensures
        m.srt_ok(1),
        m.after_srt(1) == (StateModel { pos: s.len() as usize, ..m }),
{
    lemma_pair_table_opening(s, p);
    let t = pair_table(s);
    let k = opening(t, p as usize);
    lemma_pair_table_entries(s, k);
    if t[k].1 < s.len() {
        assert(bal(s, p, t[k].1 + 1) >= 1);
    }
}

impl Jump {
    /// Gets the pair of the table at position `pos`.
    ///
    /// # Errors
    /// [`Error::JumpType`] if the jump isn't a [`Jump::Table`].
    pub fn table_pos(&self, pos: usize) -> (r: Result<(usize, usize)>)
        requires
            self@ matches JumpModel::Table(t) ==> pos < t.len(),
        ensures
            match self@ {
                JumpModel::Table(t) => r == Ok::<(usize, usize), Error>(t[pos as int]),
                JumpModel::Stack(_) => r == Err::<(usize, usize), Error>(Error::JumpType),
            },
    {
        match self {
            Jump::Table(table) => Ok(table[pos]),
            Jump::Stack(_) => Err(Error::JumpType),
        }
    }
}

/// The number of `[` among the first `n` characters.
pub open spec fn opens_before(s: Seq<char>, n: int) -> nat
    decreases n,
{
    if n <= 0 {
        0
    } else if s[n - 1] == '[' {
        opens_before(s, n - 1) + 1
    } else {
        opens_before(s, n - 1)
    }
}

/// The number of `]` among the first `n` characters.
pub open spec fn closes_before(s: Seq<char>, n: int) -> nat
    decreases n,
{
    if n <= 0 {
        0
    } else if s[n - 1] == ']' {
        closes_before(s, n - 1) + 1
    } else {
        closes_before(s, n - 1)
    }
}

/// How many loops are open after the first `n` characters.
pub open spec fn depth_after(s: Seq<char>, n: int) -> int {
    opens_before(s, n) - closes_before(s, n)
}

/// Pushes `v` onto the stack `times` times.
fn push_times(st: &mut Vec<usize>, v: usize, times: usize)
    ensures
        final(st)@ == old(st)@ + Seq::new(times as nat, |i: int| v),
{
    let mut i: usize = 0;
    while i < times
        invariant
            i <= times,
            st@ == old(st)@ + Seq::new(i as nat, |k: int| v),
        decreases times - i,
    {
        st.push(v);
        i = i + 1;
        assert(st@ =~= old(st)@ + Seq::new(i as nat, |k: int| v));
    }
}

/// Pops `times` positions off the stack; running out of them is a failure
/// (returned as `true`), with the stack left empty.
fn pop_times(st: &mut Vec<usize>, times: usize) -> (failed: bool)
    ensures
        times <= old(st)@.len() ==> !failed && final(st)@ == old(st)@.take(old(st)@.len() - times),
        times > old(st)@.len() ==> failed && final(st)@ == Seq::<usize>::empty(),
{
    let ghost orig = st@;
    let mut i: usize = 0;
    while i < times
        invariant
            orig == old(st)@,
            i <= times,
            i <= orig.len(),
            st@ == orig.take(orig.len() - i),
        decreases times - i,
    {
        if st.len() == 0 {
            assert(st@ =~= Seq::<usize>::empty());
            return true;
        }
        st.pop();
        i = i + 1;
        assert(st@ =~= orig.take(orig.len() - i));
    }
    false
}

impl State {
    /// Creates a new state with an empty jump stack.
    pub fn new() -> (st: Self)
        ensures
            st@.tape == Seq::new(30_000, |i: int| 0u8),
            st.ptr == 0,
            st.pos == 0,
            st.loop_num == 0,
            st@.jumps == JumpModel::Stack(Seq::empty()),
    {
        let tape: [u8; 30_000] = [0u8; 30_000];
        assert(tape@ =~= Seq::new(30_000, |i: int| 0u8));
        Self { tape, ptr: 0, pos: 0, loop_num: 0, jumps: Jump::Stack(Vec::new()) }
    }

    /// Makes a state with a jump table from a program's source: each `[`
    /// paired with the `]` that closes it (see [`pair_table`]).
    pub fn from_string(program: &str) -> (st: Self)
        requires
            program@.len() < usize::MAX,
        ensures
            st@.tape == Seq::new(30_000, |i: int| 0u8),
            st.ptr == 0,
            st.pos == 0,
            st.loop_num == 0,
            st@.jumps == JumpModel::Table(pair_table(program@)),
    {
        let chars = chars_of(program);
        let jump_table = pair_table_of(&chars);
        let tape: [u8; 30_000] = [0u8; 30_000];
        assert(tape@ =~= Seq::new(30_000, |i: int| 0u8));
        Self { loop_num: 0, tape, pos: 0, ptr: 0, jumps: Jump::Table(jump_table) }
    }

    /// Adds to the current cell, wrapping around at 256.
    pub fn add(&mut self, amount: u8) -> (r: &mut Self)
        requires
            old(self).ptr < 30_000,
        ensures
            (*r)@ == old(self)@.with_cell(cell_plus(old(self)@.cell(), amount)),
            *final(self) == *final(r),
    {
        let v = self.tape[self.ptr].wrapping_add(amount);
        self.tape[self.ptr] = v;
        self
    }

    /// Subtracts from the current cell, wrapping around at 256.
    pub fn sub(&mut self, amount: u8) -> (r: &mut Self)
        requires
            old(self).ptr < 30_000,
        ensures
            (*r)@ == old(self)@.with_cell(cell_minus(old(self)@.cell(), amount)),
            *final(self) == *final(r),
    {
        let v = self.tape[self.ptr].wrapping_sub(amount);
        self.tape[self.ptr] = v;
        self
    }

    /// Moves the pointer right.
    ///
    /// # Errors
    /// [`Error::TooLargeAddress`] at `(x, y)` if the pointer would land on
    /// cell `30_000` or past it; the state is then left as it was.
    pub fn mvr(&mut self, amount: usize, x: usize, y: usize) -> (r: Result<&mut Self>)
        ensures
            match old(self)@.after_mvr(amount as nat) {
                None => r matches Err(e) && e == Error::TooLargeAddress((x, y)) && *final(self) == *old(
                    self,
                ),
                Some(m) => r matches Ok(s) && (*s)@ == m && *final(self) == *final(s),
            },
    {
        match self.ptr.checked_add(amount) {
            None => {
                return Err(Error::TooLargeAddress((x, y)));
            },
            Some(next) => {
                if next >= 30_000 {
                    return Err(Error::TooLargeAddress((x, y)));
                }
                self.ptr = next;
                Ok(self)
            },
        }
    }

    /// Moves the pointer left.
    ///
    /// # Errors
    /// [`Error::NegativeAddress`] at `(x, y)` if the pointer would pass cell
    /// 0; the state is then left as it was.
    pub fn mvl(&mut self, amount: usize, x: usize, y: usize) -> (r: Result<&mut Self>)
        ensures
            match old(self)@.after_mvl(amount as nat) {
                None => r matches Err(e) && e == Error::NegativeAddress((x, y)) && *final(self) == *old(
                    self,
                ),
                Some(m) => r matches Ok(s) && (*s)@ == m && *final(self) == *final(s),
            },
    {
        if amount > self.ptr {
            return Err(Error::NegativeAddress((x, y)));
        }
        self.ptr = self.ptr - amount;
        Ok(self)
    }

    /// Starts a loop, `times` times over (see [`StateModel::after_srt`]).
    pub fn srt(&mut self, times: usize) -> (r: &mut Self)
        requires
            old(self)@.srt_ok(times as nat),
        ensures
            (*r)@ == old(self)@.after_srt(times as nat),
            *final(self) == *final(r),
    {
        let is_table = match &self.jumps {
            Jump::Table(_) => true,
            Jump::Stack(_) => false,
        };
        if is_table {
            if times > 0 {
                if self.tape[self.ptr] == 0 {
                    let mut target = self.pos;
                    match &self.jumps {
                        Jump::Table(t) => {
                            let k = find_opening(t, self.pos);
                            target = t[k].1;
                        },
                        Jump::Stack(_) => {},
                    }
                    self.pos = target;
                } else {
                    self.loop_num = self.loop_num + times;
                }
            }
        } else {
            let pos = self.pos;
            match &mut self.jumps {
                Jump::Stack(stack) => push_times(stack, pos, times),
                Jump::Table(_) => {},
            }
        }
        self
    }

    /// Whether `end(times, ..)` would end in [`Error::UnmatchedEnd`] (see
    /// [`StateModel::after_end`]).
    pub fn end_fails(&self, times: usize) -> (b: bool)
        requires
            times > 0 ==> self.ptr < 30_000,
        ensures
            b == self@.after_end(times as nat).1,
    {
        if times == 0 {
            return false;
        }
        match &self.jumps {
            Jump::Table(_) => false,
            Jump::Stack(st) => st.len() == 0 || (self.tape[self.ptr] == 0 && times > st.len()),
        }
    }

    /// Ends a loop, `times` times over (see [`StateModel::after_end`]).
    ///
    /// # Errors
    /// [`Error::UnmatchedEnd`] at `(x, y)` if the jump stack has no open `[`
    /// for the `]`.
    pub fn end(&mut self, times: usize, x: usize, y: usize) -> (r: Result<&mut Self>)
        requires
            old(self)@.end_ok(times as nat),
        ensures
            !old(self)@.after_end(times as nat).1 ==> (r matches Ok(s) && (*s)@ == old(
                self,
            )@.after_end(times as nat).0 && *final(self) == *final(s)),
            old(self)@.after_end(times as nat).1 ==> (r matches Err(e) && e == Error::UnmatchedEnd(
                (x, y),
            ) && final(self)@ == old(self)@.after_end(times as nat).0),
    {
        if times == 0 {
            return Ok(self);
        }
        let jump = self.tape[self.ptr] != 0;
        let is_table = match &self.jumps {
            Jump::Table(_) => true,
            Jump::Stack(_) => false,
        };
        if is_table {
            if jump {
                let mut target = self.pos;
                match &self.jumps {
                    Jump::Table(t) => {
                        if let Some(k) = find_ending(t, self.pos, self.loop_num) {
                            target = t[k].0 - 1;
                        }
                    },
                    Jump::Stack(_) => {},
                }
                self.pos = target;
                self.loop_num = self.loop_num.saturating_sub(1);
            } else {
                self.loop_num = self.loop_num.saturating_sub(times);
            }
            Ok(self)
        } else {
            let mut target = self.pos;
            let mut failed = false;
            match &mut self.jumps {
                Jump::Stack(stack) => {
                    if stack.len() == 0 {
                        failed = true;
                    } else if jump {
                        target = stack[stack.len() - 1];
                    } else {
                        failed = pop_times(stack, times);
                    }
                },
                Jump::Table(_) => {},
            }
            self.pos = target;
            if failed {
                return Err(Error::UnmatchedEnd((x, y)));
            }
            Ok(self)
        }
    }

    /// The bytes that outputting the current cell `times` times writes.
    pub fn out_bytes(&self, times: usize) -> (bytes: Vec<u8>)
        requires
            times > 0 ==> self.ptr < 30_000,
        ensures
            bytes@ == Seq::new(times as nat, |i: int| self@.cell()),
    {
        let mut bytes: Vec<u8> = Vec::new();
        let mut i: usize = 0;
        while i < times
            invariant
                i <= times,
                times > 0 ==> self.ptr < 30_000,
                bytes@ == Seq::new(i as nat, |k: int| self@.cell()),
            decreases times - i,
        {
            bytes.push(self.tape[self.ptr]);
            i = i + 1;
            assert(bytes@ =~= Seq::new(i as nat, |k: int| self@.cell()));
        }
        bytes
    }

    /// Stores a character that was typed as input: the current cell takes
    /// the first byte of its UTF-8 encoding.
    pub fn store_key(&mut self, key: char) -> (r: &mut Self)
        requires
            old(self).ptr < 30_000,
        ensures
            (*r)@ == old(self)@.with_cell(first_utf8_byte(key)),
            *final(self) == *final(r),
    {
        let b = utf8_lead_byte(key);
        self.tape[self.ptr] = b;
        self
    }
}

impl Default for State {
    fn default() -> (st: Self)
        ensures
            st@.tape == Seq::new(30_000, |i: int| 0u8),
            st.ptr == 0,
            st.pos == 0,
            st.loop_num == 0,
            st@.jumps == JumpModel::Stack(Seq::empty()),
    {
        Self::new()
    }
}

/// The first byte of the UTF-8 encoding of `c`.
pub open spec fn first_utf8_byte(c: char) -> u8 {
    let v = c as u32;
    if v < 0x80 {
        v as u8
    } else if v < 0x800 {
        (0xC0 + v / 64) as u8
    } else if v < 0x10000 {
        (0xE0 + v / 4096) as u8
    } else {
        (0xF0 + v / 262144) as u8
    }
}

/// The byte stored for a typed character is the first byte of the
/// character's standard UTF-8 encoding.
pub proof fn lemma_first_byte_is_utf8(c: char)
    ensures
        first_utf8_byte(c) == vstd::utf8::encode_utf8(seq![c])[0],
{
    let v = c as u32;
    assert(seq![c].drop_first() =~= Seq::<char>::empty());
    assert(seq![c][0] == c);
    if v < 0x80 {
        assert((v & 0x7F) as u8 == v as u8) by (bit_vector)
            requires
                v < 0x80,
        ;
    } else if v < 0x800 {
        assert((0xC0 + v / 64) as u8 == 0xC0 | ((v >> 6) & 0x1F) as u8) by (bit_vector)
            requires
                0x80 <= v < 0x800,
        ;
    } else if v < 0x10000 {
        assert((0xE0 + v / 4096) as u8 == 0xE0 | ((v >> 12) & 0x0F) as u8) by (bit_vector)
            requires
                0x800 <= v < 0x10000,
        ;
    } else {
        assert((0xF0 + v / 262144) as u8 == 0xF0 | ((v >> 18) & 0x7) as u8) by (bit_vector)
            requires
                0x10000 <= v <= 0x10FFFF,
        ;
    }
}

/// The first byte of the UTF-8 encoding of a character.
pub fn utf8_lead_byte(c: char) -> (b: u8)
    ensures
        b == first_utf8_byte(c),
{
    let v: u32 = c as u32;
    if v < 0x80 {
        v as u8
    } else if v < 0x800 {
        (0xC0 + v / 64) as u8
    } else if v < 0x10000 {
        (0xE0 + v / 4096) as u8
    } else {
        (0xF0 + v / 262144) as u8
    }
}

} // verus!
