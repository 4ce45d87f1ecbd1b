//! The interactive read-eval-print loop, as a state machine: the tape,
//! pointer and loop stack live on from line to line, and each line is run
//! one instruction at a time.
use vstd::prelude::*;
use crate::interpreters::objects::{cell_minus, cell_plus, first_utf8_byte, utf8_lead_byte};
use crate::text::chars_of;

verus! {

/// What the user asked for with a line.
#[derive(Clone, Copy, Debug, PartialEq, Eq, Structural)]
pub enum Command {
    /// `exit` or `quit`: leave the loop.
    Exit,
    /// `show w`: show the warranty notice.
    ShowWarranty,
    /// `show c`: show the conditions.
    ShowConditions,
    /// `Reset` or `Clear` (or the same in lower case): reset the tape,
    /// pointer and loop stack.
    Reset,
    /// Anything else.
    Program,
}

/// The command a (trimmed) line stands for.
pub open spec fn command_of(line: Seq<char>) -> Command {
    if line == "exit"@ || line == "quit"@ {
        Command::Exit
    } else if line == "show w"@ {
        Command::ShowWarranty
    } else if line == "show c"@ {
        Command::ShowConditions
    } else if line == "Reset"@ || line == "Clear"@ || line == "reset"@ || line == "clear"@ {
        Command::Reset
    } else {
        Command::Program
    }
}

fn str_is(a: &str, b: &str) -> (r: bool)
    ensures
        r == (a@ == b@),
{
    let x = chars_of(a);
    let y = chars_of(b);
    if x.len() != y.len() {
        return false;
    }
    let mut i: usize = 0;
    while i < x.len()
        invariant
            x@ == a@,
            y@ == b@,
            x@.len() == y@.len(),
            i <= x@.len(),
            forall|k: int| 0 <= k < i ==> x@[k] == y@[k],
        decreases x@.len() - i,
    {
        if x[i] != y[i] {
            return false;
        }
        i = i + 1;
    }
    assert(a@ =~= b@);
    true
}

impl Command {
    /// The command a line stands for; the line is compared as it is, so
    /// trailing white space has to be trimmed first.
    pub fn of(line: &str) -> (c: Command)
        ensures
            c == command_of(line@),
    {
        if str_is(line, "exit") || str_is(line, "quit") {
            Command::Exit
        } else if str_is(line, "show w") {
            Command::ShowWarranty
        } else if str_is(line, "show c") {
            Command::ShowConditions
        } else if str_is(line, "Reset") || str_is(line, "Clear") || str_is(line, "reset") || str_is(line,
            "clear") {
            Command::Reset
        } else {
            Command::Program
        }
    }
}

/// Why a line was broken off.
#[derive(Clone, Copy, Debug, PartialEq, Eq, Structural)]
pub enum Warning {
    /// The pointer left the tape; it was moved back to zero.
    OutOfBounds,
    /// A `]` was met with an empty loop stack.
    UnmatchedEnd,
}

impl Warning {
    /// The text of the warning.
    pub open spec fn spec_text(self) -> Seq<char> {
        match self {
            Warning::OutOfBounds => "Pointer moved out of bounds, pointer location moved back to zero"@,
            Warning::UnmatchedEnd => "Unmatched ], breaking interpretation"@,
        }
    }

    /// The text of the warning, as shown on the error output.
    pub fn text(&self) -> (t: &'static str)
        ensures
            t@ == self.spec_text(),
    {
        match self {
            Warning::OutOfBounds => "Pointer moved out of bounds, pointer location moved back to zero",
            Warning::UnmatchedEnd => "Unmatched ], breaking interpretation",
        }
    }
}

/// What one step of a line asks of the outside world.
#[derive(Clone, Copy, Debug, PartialEq, Eq, Structural)]
pub enum ReplStep {
    /// The line is over; when `newline` is set something was printed and a
    /// line break is owed.
    LineDone { newline: bool },
    /// An instruction ran; nothing is owed.
    Continue,
    /// `.` ran: this character is to be printed.
    Print(char),
    /// `,` ran: a character is to be typed (see
    /// [`crate::interpreters::input::KeyEntry::press_in_repl`]) and a byte
    /// read from the standard input, then handed to
    /// [`Session::store_input`].
    NeedKey,
    /// The line was broken off; the warning is to be shown.
    Warn(Warning),
}

/// What a [`Session`] holds.
pub struct SessionModel {
    pub tape: Seq<u8>,
    pub ptr: usize,
    pub stack: Seq<usize>,
    pub line: Seq<char>,
    pub pos: usize,
    pub printed: bool,
    pub stopped: bool,
}

/// The state of the read-eval-print loop.
pub struct Session {
    tape: [u8; 30_000],
    ptr: usize,
    stack: Vec<usize>,
    line: Vec<char>,
    pos: usize,
    printed: bool,
    stopped: bool,
}

impl View for Session {
    type V = SessionModel;

    closed spec fn view(&self) -> SessionModel {
        SessionModel {
            tape: self.tape@,
            ptr: self.ptr,
            stack: self.stack@,
            line: self.line@,
            pos: self.pos,
            printed: self.printed,
            stopped: self.stopped,
        }
    }
}

/// The state a session starts in and a reset brings back: a zero tape, the
/// pointer at zero, an empty loop stack and no line.
pub open spec fn fresh(m: SessionModel) -> bool {
    &&& m.tape == Seq::new(30_000, |i: int| 0u8)
    &&& m.ptr == 0
    &&& m.stack == Seq::<usize>::empty()
    &&& m.line == Seq::<char>::empty()
    &&& m.pos == 0
    &&& !m.printed
    &&& !m.stopped
}

/// Where skipping a loop body stops, scanning from `j` with `depth` loops
/// open: at the `]` that closes the outermost one, or at the end of the
/// line.
pub open spec fn skip_end(s: Seq<char>, j: int, depth: nat) -> int
    decreases s.len() - j,
{
    if j >= s.len() {
        s.len() as int
    } else if s[j] == '[' {
        skip_end(s, j + 1, depth + 1)
    } else if s[j] == ']' {
        if depth <= 1 {
            j
        } else {
            skip_end(s, j + 1, (depth - 1) as nat)
        }
    } else {
        skip_end(s, j + 1, depth)
    }
}

/// Skipping a loop body from `j` never has more than 65535 loops open (they
/// are counted in 16 bits).
pub open spec fn skip_fits(s: Seq<char>, j: int, depth: nat) -> bool
    decreases s.len() - j,
{
    if j >= s.len() {
        true
    } else if s[j] == '[' {
        depth < 65535 && skip_fits(s, j + 1, depth + 1)
    } else if s[j] == ']' {
        depth <= 1 || skip_fits(s, j + 1, (depth - 1) as nat)
    } else {
        skip_fits(s, j + 1, depth)
    }
}

/// The session after one step, and what the step asks for.
pub open spec fn session_step(m: SessionModel) -> (SessionModel, ReplStep) {
    if m.stopped || m.pos >= m.line.len() {
        (m, ReplStep::LineDone { newline: m.printed })
    } else {
        let c = m.line[m.pos as int];
        let cell = m.tape[m.ptr as int];
        let next = SessionModel { pos: (m.pos + 1) as usize, ..m };
        if c == '+' {
            (SessionModel { tape: m.tape.update(m.ptr as int, cell_plus(cell, 1)), ..next }, ReplStep::Continue)
        } else if c == '-' {
            (SessionModel { tape: m.tape.update(m.ptr as int, cell_minus(cell, 1)), ..next }, ReplStep::Continue)
        } else if c == '>' {
            if m.ptr + 1 == 30_000 {
                (SessionModel { ptr: 0, stopped: true, ..m }, ReplStep::Warn(Warning::OutOfBounds))
            } else {
                (SessionModel { ptr: (m.ptr + 1) as usize, ..next }, ReplStep::Continue)
            }
        } else if c == '<' {
            if m.ptr == 0 {
                (SessionModel { ptr: 0, stopped: true, ..m }, ReplStep::Warn(Warning::OutOfBounds))
            } else {
                (SessionModel { ptr: (m.ptr - 1) as usize, ..next }, ReplStep::Continue)
            }
        } else if c == '.' {
            (SessionModel { printed: true, ..next }, ReplStep::Print(cell as char))
        } else if c == ',' {
            (next, ReplStep::NeedKey)
        } else if c == '[' {
            if cell != 0 {
                (SessionModel { stack: m.stack.push(m.pos), ..next }, ReplStep::Continue)
            } else {
                (
                    SessionModel { pos: (skip_end(m.line, m.pos + 1, 1) + 1) as usize, ..m },
                    ReplStep::Continue,
                )
            }
        } else if c == ']' {
            if m.stack.len() == 0 {
                (SessionModel { stopped: true, ..m }, ReplStep::Warn(Warning::UnmatchedEnd))
            } else if cell > 0 {
                (SessionModel { pos: (m.stack.last() + 1) as usize, ..m }, ReplStep::Continue)
            } else {
                (SessionModel { stack: m.stack.drop_last(), ..next }, ReplStep::Continue)
            }
        } else {
            (next, ReplStep::Continue)
        }
    }
}

/// What the next step needs to run without a fault: a skipped loop body
/// must not nest too deep.
pub open spec fn session_step_ok(m: SessionModel) -> bool {
    !(m.stopped || m.pos >= m.line.len()) ==> {
        let c = m.line[m.pos as int];
        let cell = m.tape[m.ptr as int];
        (c == '[' && cell == 0) ==> skip_fits(m.line, m.pos + 1, 1)
    }
}

/// The loop stack of a step at a bracket: a `[` entered on a non-zero cell
/// pushes its own position; a `]` on a zero cell leaves the innermost open
/// loop, dropping the last position pushed; a `]` on a non-zero cell keeps
/// the stack and resumes just after the innermost open `[`; a `]` with no
/// open loop warns and stops the line. A `.` prints the current cell.
pub proof fn lemma_session_loop_stack(m: SessionModel)
    requires
        !m.stopped,
        m.pos < m.line.len(),
        m.line.len() < usize::MAX,
        forall|i: int| 0 <= i < m.stack.len() ==> #[trigger] m.stack[i] < usize::MAX,
    ensures
        ({
            let c = m.line[m.pos as int];
            let cell = m.tape[m.ptr as int];
            let (after, r) = session_step(m);
            &&& c == '[' && cell != 0 ==> after.stack == m.stack.push(m.pos) && after.pos == m.pos + 1
                && r == ReplStep::Continue
            &&& c == ']' && m.stack.len() > 0 && cell == 0 ==> after.stack.len() + 1 == m.stack.len()
                && after.stack == m.stack.subrange(0, m.stack.len() - 1) && after.pos == m.pos + 1
            &&& c == ']' && m.stack.len() > 0 && cell != 0 ==> after.stack == m.stack && after.pos
                == m.stack[m.stack.len() - 1] + 1
            &&& c == ']' && m.stack.len() == 0 ==> after.stopped && r == ReplStep::Warn(
                Warning::UnmatchedEnd,
            ) && after.stack == m.stack
            &&& c == '.' ==> r == ReplStep::Print(cell as char) && after.tape == m.tape
        }),
{
    if m.stack.len() > 0 {
        assert(m.stack.drop_last() =~= m.stack.subrange(0, m.stack.len() - 1));
    }
}

/// A loop entered on a non-zero cell and left at a `]` on a zero cell
/// leaves the loop stack as it was before the `[`, whatever was pushed and
/// popped in between as long as the stack came back to just after the `[`.
pub proof fn lemma_session_loop_closes_as_opened(m: SessionModel, m2: SessionModel)
    requires
        !m.stopped,
        m.pos < m.line.len(),
        m.line[m.pos as int] == '[',
        m.tape[m.ptr as int] != 0,
        m2.stack == session_step(m).0.stack,
        !m2.stopped,
        m2.pos < m2.line.len(),
        m2.line[m2.pos as int] == ']',
        m2.tape[m2.ptr as int] == 0,
    ensures
        session_step(m2).0.stack == m.stack,
{
    assert(m.stack.push(m.pos).drop_last() =~= m.stack);
}

impl Session {
    #[verifier::type_invariant]
    closed spec fn well_formed(self) -> bool {
        &&& self.ptr < 30_000
        &&& self.line@.len() < usize::MAX
        &&& forall|i: int| 0 <= i < self.stack@.len() ==> #[trigger] self.stack@[i] < usize::MAX
    }

    /// A fresh session.
    pub fn new() -> (s: Self)
        ensures
            fresh(s@),
    {
        let tape: [u8; 30_000] = [0u8; 30_000];
        assert(tape@ =~= Seq::new(30_000, |i: int| 0u8));
        Session {
            tape,
            ptr: 0,
            stack: Vec::new(),
            line: Vec::new(),
            pos: 0,
            printed: false,
            stopped: false,
        }
    }

    /// Resets the tape, the pointer and the loop stack (and drops the line).
    pub fn reset(&mut self)
        ensures
            fresh(final(self)@),
    {
        *self = Session::new();
    }

    /// The prompt for the next line: `"... "` while loops are open on the
    /// stack, `">>> "` otherwise.
    pub fn prompt(&self) -> (p: &'static str)
        ensures
            self@.stack.len() == 0 ==> p@ == ">>> "@,
            self@.stack.len() != 0 ==> p@ == "... "@,
    {
        if self.stack.len() == 0 {
            ">>> "
        } else {
            "... "
        }
    }

    /// Starts running a line: from its first character, with nothing
    /// printed yet. The tape, pointer and loop stack carry over.
    pub fn begin_line(&mut self, line: &str)
        requires
            line@.len() < usize::MAX,
        ensures
            final(self)@ == (SessionModel {
                line: line@,
                pos: 0,
                printed: false,
                stopped: false,
                ..old(self)@
            }),
    {
        proof {
            use_type_invariant(&*self);
        }
        let chars = chars_of(line);
        self.line = chars;
        self.pos = 0;
        self.printed = false;
        self.stopped = false;
    }

    /// Whether the next step can run without a fault.
    pub fn can_step(&self) -> (b: bool)
        ensures
            b == session_step_ok(self@),
    {
        proof {
            use_type_invariant(self);
        }
        if self.stopped || self.pos >= self.line.len() {
            return true;
        }
        let c = self.line[self.pos];
        let cell = self.tape[self.ptr];
        if c == '[' && cell == 0 {
            return skip_fits_from(&self.line, self.pos);
        }
        true
    }

    /// Runs one instruction of the line (see [`session_step`]).
    pub fn step(&mut self) -> (r: ReplStep)
        requires
            session_step_ok(old(self)@),
        ensures
            (final(self)@, r) == session_step(old(self)@),
    {
        proof {
            use_type_invariant(&*self);
        }
        if self.stopped || self.pos >= self.line.len() {
            return ReplStep::LineDone { newline: self.printed };
        }
        let c = self.line[self.pos];
        let cell = self.tape[self.ptr];
        if c == '+' {
            self.tape[self.ptr] = cell.wrapping_add(1);
            self.pos = self.pos + 1;
            ReplStep::Continue
        } else if c == '-' {
            self.tape[self.ptr] = cell.wrapping_sub(1);
            self.pos = self.pos + 1;
            ReplStep::Continue
        } else if c == '>' {
            if self.ptr + 1 == 30_000 {
                self.ptr = 0;
                self.stopped = true;
                return ReplStep::Warn(Warning::OutOfBounds);
            }
            self.ptr = self.ptr + 1;
            self.pos = self.pos + 1;
            ReplStep::Continue
        } else if c == '<' {
            if self.ptr == 0 {
                self.stopped = true;
                return ReplStep::Warn(Warning::OutOfBounds);
            }
            self.ptr = self.ptr - 1;
            self.pos = self.pos + 1;
            ReplStep::Continue
        } else if c == '.' {
            self.printed = true;
            self.pos = self.pos + 1;
            ReplStep::Print(cell as char)
        } else if c == ',' {
            self.pos = self.pos + 1;
            ReplStep::NeedKey
        } else if c == '[' {
            if cell != 0 {
                let p = self.pos;
                let mut stack: Vec<usize> = Vec::new();
                std::mem::swap(&mut stack, &mut self.stack);
                stack.push(p);
                self.stack = stack;
                self.pos = self.pos + 1;
            } else {
                let end = skip_loop(&self.line, self.pos);
                self.pos = end + 1;
            }
            ReplStep::Continue
        } else if c == ']' {
            if self.stack.len() == 0 {
                self.stopped = true;
                ReplStep::Warn(Warning::UnmatchedEnd)
            } else if cell > 0 {
                let top = self.stack[self.stack.len() - 1];
                self.pos = top + 1;
                ReplStep::Continue
            } else {
                let mut stack: Vec<usize> = Vec::new();
                std::mem::swap(&mut stack, &mut self.stack);
                stack.pop();
                self.stack = stack;
                self.pos = self.pos + 1;
                ReplStep::Continue
            }
        } else {
            self.pos = self.pos + 1;
            ReplStep::Continue
        }
    }

    /// Stores the input of a `,`: the byte read from the standard input
    /// when that read succeeded, otherwise the first UTF-8 byte of the typed
    /// character.
    pub fn store_input(&mut self, key: char, read: Option<u8>)
        ensures
            final(self)@ == (SessionModel {
                tape: old(self)@.tape.update(
                    old(self)@.ptr as int,
                    match read {
                        Some(b) => b,
                        None => first_utf8_byte(key),
                    },
                ),
                ..old(self)@
            }),
    {
        proof {
            use_type_invariant(&*self);
        }
        let b = match read {
            Some(b) => b,
            None => utf8_lead_byte(key),
        };
        self.tape[self.ptr] = b;
    }
}

/// Whether skipping the loop body that starts after `start` fits the
/// 16-bit depth count.
fn skip_fits_from(line: &Vec<char>, start: usize) -> (b: bool)
    requires
        start < line@.len(),
    ensures
        b == skip_fits(line@, start + 1, 1),
{
    let len = line.len();
    let mut j: usize = start + 1;
    let mut depth: u32 = 1;
    while j < len
        invariant
            start < j <= len,
            len == line@.len(),
            1 <= depth <= 65535,
            skip_fits(line@, start + 1, 1) == skip_fits(line@, j as int, depth as nat),
        decreases len - j,
    {
        let c = line[j];
        if c == '[' {
            if depth >= 65535 {
                return false;
            }
            depth = depth + 1;
        } else if c == ']' {
            if depth <= 1 {
                return true;
            }
            depth = depth - 1;
        }
        j = j + 1;
    }
    true
}

/// Skips the loop body that starts after the `[` at `start`: the index of
/// the `]` that closes it, or the length of the line.
fn skip_loop(line: &Vec<char>, start: usize) -> (end: usize)
    requires
        start < line@.len(),
        line@.len() < usize::MAX,
        skip_fits(line@, start + 1, 1),
    ensures
        end == skip_end(line@, start + 1, 1),
        end <= line@.len(),
{
    let len = line.len();
    let mut j: usize = start;
    let mut depth: u16 = 1;
    while depth > 0
        invariant
            start <= j <= len,
            len == line@.len(),
            len < usize::MAX,
            depth > 0 ==> j < len,
            depth > 0 ==> skip_end(line@, start + 1, 1) == skip_end(line@, j + 1, depth as nat)
                && skip_fits(line@, j + 1, depth as nat),
            depth == 0 ==> skip_end(line@, start + 1, 1) == j,
        decreases len - j,
    {
        j = j + 1;
        if j >= len {
            return j;
        }
        let c = line[j];
        if c == '[' {
            depth = depth + 1;
        } else if c == ']' {
            depth = depth - 1;
        }
    }
    j
}

} // verus!
