use brainfuck_rs::emit::{frame, Emit, STREAM_TAG, TREE_TAG};
use brainfuck_rs::interpreters::input::{KeyEntry, KeyPress};
use brainfuck_rs::interpreters::program_state::{ProgramRun, ProgramState, ProgramStep};
use brainfuck_rs::interpreters::repl::{
    BrainfuckReplCompleter, BrainfuckReplHelper, BrainfuckReplHighlighter, BrainfuckReplValidator,
    LineValidity,
};
use brainfuck_rs::interpreters::session::{Command, ReplStep, Session, Warning};
use brainfuck_rs::pre_proccesser::SourceProgram;
use brainfuck_rs::text::push_decimal;
use brainfuck_rs::Error;

/// Runs one line in a session without input; what it printed, and how it ended.
fn run_line(session: &mut Session, line: &str) -> (String, ReplStep) {
    session.begin_line(line);
    let mut printed = String::new();
    loop {
        assert!(session.can_step());
        match session.step() {
            ReplStep::Continue => {}
            ReplStep::Print(c) => printed.push(c),
            ReplStep::NeedKey => panic!("no input here"),
            other => return (printed, other),
        }
    }
}

#[test]
fn session_prints_a() {
    let mut session = Session::new();
    let (printed, end) = run_line(&mut session, "++++++++[>++++++++<-]>+.");
    assert_eq!(printed, "A");
    assert_eq!(end, ReplStep::LineDone { newline: true });
    // each pass through `]` resumes after its `[`; the finished loop leaves
    // the loop stack empty
    assert_eq!(session.prompt(), ">>> ");
    let (_, end) = run_line(&mut session, "++[-]");
    assert_eq!(end, ReplStep::LineDone { newline: false });
    assert_eq!(session.prompt(), ">>> ");
}

#[test]
fn session_state_carries_over_lines() {
    let mut session = Session::new();
    run_line(&mut session, "+++");
    let (printed, end) = run_line(&mut session, "++.");
    assert_eq!(printed, "\u{5}");
    assert_eq!(end, ReplStep::LineDone { newline: true });
    assert_eq!(session.prompt(), ">>> ");
}

#[test]
fn session_no_print_no_newline() {
    let mut session = Session::new();
    assert_eq!(run_line(&mut session, "+-"), (String::new(), ReplStep::LineDone { newline: false }));
}

#[test]
fn session_pointer_out_of_bounds_left() {
    let mut session = Session::new();
    let (_, end) = run_line(&mut session, "<+.");
    assert_eq!(end, ReplStep::Warn(Warning::OutOfBounds));
    assert_eq!(
        Warning::OutOfBounds.text(),
        "Pointer moved out of bounds, pointer location moved back to zero"
    );
    // the line is over after the warning
    assert_eq!(session.step(), ReplStep::LineDone { newline: false });
}

#[test]
fn session_unmatched_end() {
    let mut session = Session::new();
    let (_, end) = run_line(&mut session, "]");
    assert_eq!(end, ReplStep::Warn(Warning::UnmatchedEnd));
    assert_eq!(Warning::UnmatchedEnd.text(), "Unmatched ], breaking interpretation");
}

#[test]
fn session_unmatched_end_on_nonzero_cell_warns() {
    let mut session = Session::new();
    let (_, end) = run_line(&mut session, "+]+");
    assert_eq!(end, ReplStep::Warn(Warning::UnmatchedEnd));
    // the rest of the line is dropped
    assert_eq!(session.step(), ReplStep::LineDone { newline: false });
    assert_eq!(session.prompt(), ">>> ");
    let (printed, _) = run_line(&mut session, ".");
    assert_eq!(printed, "\u{1}");
}

#[test]
fn session_skips_loop_on_zero() {
    let mut session = Session::new();
    let (printed, _) = run_line(&mut session, "[.[.]]+.");
    assert_eq!(printed, "\u{1}");
}

#[test]
fn session_open_loop_changes_prompt() {
    let mut session = Session::new();
    run_line(&mut session, "+[");
    assert_eq!(session.prompt(), "... ");
    session.reset();
    assert_eq!(session.prompt(), ">>> ");
}

#[test]
fn session_input() {
    let mut session = Session::new();
    session.begin_line(",.");
    assert_eq!(session.step(), ReplStep::NeedKey);
    session.store_input('x', None);
    assert_eq!(session.step(), ReplStep::Print('x'));
    session.begin_line(",.");
    assert_eq!(session.step(), ReplStep::NeedKey);
    session.store_input('x', Some(b'y'));
    assert_eq!(session.step(), ReplStep::Print('y'));
}

#[test]
fn session_commands() {
    assert_eq!(Command::of("exit"), Command::Exit);
    assert_eq!(Command::of("quit"), Command::Exit);
    assert_eq!(Command::of("show w"), Command::ShowWarranty);
    assert_eq!(Command::of("show c"), Command::ShowConditions);
    assert_eq!(Command::of("clear"), Command::Reset);
    assert_eq!(Command::of("reset"), Command::Reset);
    assert_eq!(Command::of("Reset"), Command::Reset);
    assert_eq!(Command::of("Clear"), Command::Reset);
    assert_eq!(Command::of("RESET"), Command::Program);
    assert_eq!(Command::of("exit "), Command::Program);
    assert_eq!(Command::of("+++"), Command::Program);
}

#[test]
fn repl_key_echo() {
    let mut entry = KeyEntry::new();
    assert_eq!(entry.press_in_repl(KeyPress::Char('a')).echo, "\x7fa");
    assert_eq!(entry.press_in_repl(KeyPress::Other).echo, "\x7fa");
    assert_eq!(entry.press_in_repl(KeyPress::Backspace).echo, "\x7f");
    assert_eq!(entry.press_in_repl(KeyPress::Enter).done, None);
    entry.press_in_repl(KeyPress::Char('b'));
    let end = entry.press_in_repl(KeyPress::Enter);
    assert_eq!(end.done, Some('b'));
    assert_eq!(end.echo, "\x7fb");
}

#[test]
fn completeness_counts_open_loops() {
    assert_eq!(BrainfuckReplHelper::completeness("[[]"), 1);
    assert_eq!(BrainfuckReplHelper::completeness("+-"), 0);
    assert_eq!(BrainfuckReplHelper::completeness("]]["), -1);
}

#[test]
fn completer_offers_closing_brackets() {
    assert_eq!(BrainfuckReplCompleter::candidates("[[+"), vec![String::from("]]")]);
    assert!(BrainfuckReplCompleter::candidates("[]").is_empty());
    assert!(BrainfuckReplCompleter::candidates("]").is_empty());
    let line = String::from("[[[-");
    let completed = line.clone() + &BrainfuckReplCompleter::candidates(&line)[0];
    assert_eq!(BrainfuckReplHelper::completeness(&completed), 0);
}

#[test]
fn validator_verdicts() {
    assert_eq!(BrainfuckReplValidator::verdict("[+"), LineValidity::Incomplete);
    assert_eq!(
        BrainfuckReplValidator::verdict("+]"),
        LineValidity::Invalid(String::from("Unmatched ] character"))
    );
    assert_eq!(BrainfuckReplValidator::verdict("[+]"), LineValidity::Valid);
    assert_eq!(
        BrainfuckReplValidator::verdict("]["),
        LineValidity::Invalid(String::from("Unmatched ] character"))
    );
    assert_eq!(
        BrainfuckReplValidator::verdict("[]][[["),
        LineValidity::Invalid(String::from("Unmatched ] character"))
    );
    assert_eq!(BrainfuckReplValidator::verdict(""), LineValidity::Valid);
}

#[test]
fn highlighter_colours() {
    assert_eq!(
        BrainfuckReplHighlighter::highlight("+a]"),
        "\x1b[92m+\x1b[39ma\x1b[39m\x1b[96m]\x1b[39m"
    );
    assert_eq!(BrainfuckReplHighlighter::highlight(""), "");
    assert_eq!(BrainfuckReplHighlighter::highlight_hint("]]"), "\x1b[2m]]\x1b[0m");
    assert_eq!(BrainfuckReplHighlighter::highlight_prompt(), "\x1b[95m>>>\x1b[0m ");
}

#[test]
fn highlighter_char() {
    assert!(BrainfuckReplHighlighter::highlight_char("a[", 2));
    assert!(!BrainfuckReplHighlighter::highlight_char("a[", 1));
    assert!(BrainfuckReplHighlighter::highlight_char("<", 0));
    assert!(!BrainfuckReplHighlighter::highlight_char("<", 5));
}

fn program_run(program: &str) -> (String, ProgramStep) {
    let mut run: ProgramRun = SourceProgram(String::from(program)).interpretation();
    let mut printed = String::new();
    loop {
        assert!(run.can_step());
        match run.step() {
            ProgramStep::Continue => {}
            ProgramStep::Print(c) => printed.push(c),
            ProgramStep::Input => panic!("no input here"),
            other => return (printed, other),
        }
    }
}

#[test]
fn program_run_prints() {
    let program = format!("{}.x", "+".repeat(66));
    assert_eq!(program_run(&program), (String::from("B"), ProgramStep::Finished));
}

#[test]
fn program_run_reaches_cell_zero_from_the_left() {
    assert_eq!(program_run("><+"), (String::new(), ProgramStep::Finished));
    let (_, end) = program_run("><<");
    assert_eq!(end, ProgramStep::Failed(String::from("Cannot move to negative tape addresses")));
}

#[test]
fn program_run_runs_loops_and_last_character() {
    let program = format!("{}[>++<-]>.", "+".repeat(33));
    assert_eq!(program_run(&program), (String::from("B"), ProgramStep::Finished));
    assert_eq!(program_run("+[-]>[-]"), (String::new(), ProgramStep::Finished));
    assert_eq!(program_run(""), (String::new(), ProgramStep::Finished));
}

#[test]
fn program_state_table_pairs_matching_brackets() {
    let state = ProgramState::from_string("[[]]");
    assert_eq!(state.jumps, vec![(0, 3), (1, 2)]);
    let state = ProgramState::from_string("[][]");
    assert_eq!(state.jumps, vec![(0, 1), (2, 3)]);
    let state = ProgramState::from_string("+[-]>[-]");
    assert_eq!(state.jumps, vec![(1, 3), (5, 7)]);
}

#[test]
fn program_state_end_away_from_a_close_uses_the_depth() {
    let mut state = ProgramState::from_string("++[-]");
    state.add(2);
    state.srt(1);
    assert_eq!((state.pos, state.loop_num), (0, 1));
    state.sub(1);
    state.end(1);
    assert_eq!((state.pos, state.loop_num), (1, 0));
}

#[test]
fn program_state_moves() {
    let mut state = ProgramState::from_string("");
    assert_eq!(
        state.mvr(30_000).unwrap_err(),
        String::from("Cannot move past tape bounds of 30_000 cells")
    );
    assert_eq!(
        state.mvr(30_001).unwrap_err(),
        String::from("Cannot move past tape bounds of 30_000 cells")
    );
    assert_eq!(state.ptr, 0);
    state.mvr(5).unwrap();
    assert_eq!(state.ptr, 5);
    assert_eq!(state.mvl(6).unwrap_err(), String::from("Cannot move to negative tape addresses"));
    state.mvl(5).unwrap();
    assert_eq!(state.ptr, 0);
    state.ptr = 29_999;
    assert!(state.mvr(1).is_err());
    assert_eq!(state.ptr, 29_999);
}

#[test]
fn program_state_cells_and_output() {
    let mut state = ProgramState::from_string("");
    state.ptr = 3;
    state.add(250).add(10);
    assert_eq!(state.tape[3], 4);
    state.sub(5);
    assert_eq!(state.tape[3], 255);
    state.store_byte(b'z');
    assert_eq!(state.out_text(3), "zzz");
}

#[test]
fn program_state_jumps() {
    // a zero cell at the `[` at 0 skips to its `]` at 3
    let mut state = ProgramState::from_string("[[]]");
    state.srt(1);
    assert_eq!((state.pos, state.loop_num), (3, 0));
    // from the `[` at 5, the loop is skipped to the `]` at 7
    let mut state = ProgramState::from_string("+[-]>[-]");
    state.pos = 5;
    state.ptr = 1;
    state.srt(1);
    assert_eq!((state.pos, state.loop_num), (7, 0));
    // a set cell at the `]` at 4 goes back to just before the `[` at 2
    let mut state = ProgramState::from_string("++[-]");
    state.tape[0] = 2;
    state.pos = 2;
    state.srt(1);
    assert_eq!((state.pos, state.loop_num), (2, 1));
    state.pos = 4;
    state.end(1);
    assert_eq!((state.pos, state.loop_num), (1, 0));
    state.tape[0] = 0;
    state.pos = 4;
    state.loop_num = 1;
    state.end(1);
    assert_eq!((state.pos, state.loop_num), (4, 0));
}

#[test]
fn display() {
    assert_eq!(Error::JumpType.message(), "Wrong Jump type");
    assert_eq!(Error::Stop.message(), "Program was requested to stop");
    assert_eq!(
        Error::NegativeAddress((69, 420)).message(),
        "Pointer moved to a negative address at line 69, character 420"
    );
    assert_eq!(
        Error::TooLargeAddress((69, 420)).message(),
        "Pointer moved to a memory address >= 30_000 at line 69, character 420"
    );
    assert_eq!(Error::UnmatchedStart((69, 420)).message(), "Unmatched [ at line 69, character 420");
    assert_eq!(Error::UnmatchedEnd((69, 420)).message(), "Unmatched ] at line 69, character 420");
    assert_eq!(Error::IO(String::from("entity not found")).message(), "entity not found");
}

#[test]
fn decimal_rendering() {
    let mut s = String::new();
    push_decimal(&mut s, 0);
    push_decimal(&mut s, 7);
    push_decimal(&mut s, 1_000_203);
    assert_eq!(s, "071000203");
}

#[test]
fn emit_extensions_and_frames() {
    assert_eq!(Emit::Stream.extension(), ".bstr");
    assert_eq!(Emit::Byte.extension(), ".bfc");
    assert_eq!(Emit::ByteOptimised.extension(), ".bfc");
    assert_eq!(Emit::Tree.extension(), "");
    assert!(Emit::Stream.stops_after_lexing());
    assert!(!Emit::Tree.stops_after_lexing());
    assert!(Emit::Tree.stops_after_parsing());
    assert!(!Emit::Stream.stops_after_parsing());
    assert!(!Emit::Byte.stops_after_parsing());
    assert_eq!(frame(STREAM_TAG, &vec![9, 8]), vec![1, 9, 8]);
    assert_eq!(TREE_TAG, 2);
}

/// The text with every escape code (escape up to the next `m`) deleted.
fn unescaped(s: &str) -> String {
    let mut out = String::new();
    let mut in_code = false;
    for c in s.chars() {
        if in_code {
            if c == 'm' {
                in_code = false;
            }
        } else if c == '\x1b' {
            in_code = true;
        } else {
            out.push(c);
        }
    }
    out
}

#[test]
fn highlighter_output_without_codes_is_the_line() {
    for line in ["", "+-<>[].,", "mmm [x] m+", "\u{e9}<\u{1f600}>"] {
        assert_eq!(unescaped(&BrainfuckReplHighlighter::highlight(line)), line);
    }
}
