# brainfuck_rs

A brainfuck interpreter and compiler front end whose logic is proved with
Verus.

- `src/` is the verified library:
  - `compiler::front` lexes source into tokens (keeping other characters and
    line breaks for error positions), removes leading comments, and parses
    token streams into syntax trees;
  - `pre_proccesser` is the first front end, which keeps the eight commands
    only and shares the tokens, trees and parse of the compiler's front end;
  - `interpreters` holds the jump tables (each `[` paired with the `]` that
    closes it), the tape states and their operations, the interpreters as
    state machines that run one instruction per step (shown to step as the
    plain brainfuck machine does), the
    key entry for `,`, the read-eval-print session, and the decisions of the
    line editor (completion, colouring, validation);
  - `emit` and `error` hold the build levels and the error messages.
- `app/` is the command line program: argument parsing, files, the terminal,
  and the loops that perform what the state machines ask for.
- `tests/` runs the library on concrete programs.
