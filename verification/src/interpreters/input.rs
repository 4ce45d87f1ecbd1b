//! Reading one character of input from key presses: what each key echoes
//! and when the entry is complete.
use vstd::prelude::*;
use crate::text::push_char;

verus! {

/// A key that the keyboard reported.
#[derive(Clone, Copy, Debug, PartialEq, Eq, Structural)]
pub enum KeyPress {
    /// A character key.
    Char(char),
    /// The enter key.
    Enter,
    /// The backspace key.
    Backspace,
    /// Any other key.
    Other,
}

/// What a key press does: the text to echo to the user and, once the entry
/// is complete, the chosen character.
#[derive(Debug, PartialEq, Eq)]
pub struct KeyEcho {
    pub echo: String,
    pub done: Option<char>,
}

/// The character chosen so far while a character of input is typed.
#[derive(Debug, PartialEq, Eq, Structural)]
pub struct KeyEntry {
    pub chosen: Option<char>,
}

/// The erase character that the echo uses to take back a typed character.
pub open spec fn erase() -> char {
    '\x7f'
}

/// The echo of the interpreter's input: a character shows itself (erasing
/// the one chosen before, if any), backspace erases, other keys show
/// nothing.
pub open spec fn echo_of(chosen: Option<char>, key: KeyPress) -> Seq<char> {
    match key {
        KeyPress::Char(c) => if chosen is None {
            seq![c]
        } else {
            seq![erase(), c]
        },
        KeyPress::Backspace => seq![erase()],
        _ => Seq::empty(),
    }
}

/// The echo of the REPL's input: after each key, the chosen character is
/// shown again behind an erase; backspace erases.
pub open spec fn repl_echo_of(chosen: Option<char>, key: KeyPress) -> Seq<char> {
    match key {
        KeyPress::Char(c) => seq![erase(), c],
        KeyPress::Backspace => seq![erase()],
        _ => match chosen {
            Some(v) => seq![erase(), v],
            None => Seq::empty(),
        },
    }
}

/// The chosen character after a key: a character key chooses it, backspace
/// clears the choice, other keys leave it.
pub open spec fn chosen_after(chosen: Option<char>, key: KeyPress) -> Option<char> {
    match key {
        KeyPress::Char(c) => Some(c),
        KeyPress::Backspace => None,
        _ => chosen,
    }
}

/// The entry is complete when enter is pressed with a character chosen.
pub open spec fn done_after(chosen: Option<char>, key: KeyPress) -> Option<char> {
    match key {
        KeyPress::Enter => chosen,
        _ => None,
    }
}

impl KeyEntry {
    /// An entry with nothing chosen yet.
    pub fn new() -> (e: Self)
        ensures
            e.chosen is None,
    {
        KeyEntry { chosen: None }
    }

    /// Takes one key press of the interpreter's input.
    pub fn press(&mut self, key: KeyPress) -> (r: KeyEcho)
        ensures
            r.echo@ == echo_of(old(self).chosen, key),
            final(self).chosen == chosen_after(old(self).chosen, key),
            r.done == done_after(old(self).chosen, key),
    {
        let mut echo = String::new();
        let mut done: Option<char> = None;
        match key {
            KeyPress::Char(c) => {
                if self.chosen.is_some() {
                    push_char(&mut echo, '\x7f');
                }
                push_char(&mut echo, c);
                self.chosen = Some(c);
            },
            KeyPress::Enter => {
                done = self.chosen;
            },
            KeyPress::Backspace => {
                push_char(&mut echo, '\x7f');
                self.chosen = None;
            },
            KeyPress::Other => {},
        }
        assert(echo@ =~= echo_of(old(self).chosen, key));
        KeyEcho { echo, done }
    }

    /// Takes one key press of the REPL's input.
    pub fn press_in_repl(&mut self, key: KeyPress) -> (r: KeyEcho)
        ensures
            r.echo@ == repl_echo_of(old(self).chosen, key),
            final(self).chosen == chosen_after(old(self).chosen, key),
            r.done == done_after(old(self).chosen, key),
    {
        let mut echo = String::new();
        let mut done: Option<char> = None;
        match key {
            KeyPress::Char(c) => {
                self.chosen = Some(c);
            },
            KeyPress::Enter => {
                done = self.chosen;
            },
            KeyPress::Backspace => {
                push_char(&mut echo, '\x7f');
                self.chosen = None;
            },
            KeyPress::Other => {},
        }
        match self.chosen {
            Some(v) => {
                push_char(&mut echo, '\x7f');
                push_char(&mut echo, v);
            },
            None => {},
        }
        assert(echo@ =~= repl_echo_of(old(self).chosen, key));
        KeyEcho { echo, done }
    }
}

} // verus!
