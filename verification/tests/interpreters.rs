use brainfuck_rs::compiler::SourceProgram;
use brainfuck_rs::interpreters::input::{KeyEntry, KeyPress};
use brainfuck_rs::interpreters::objects::{Jump, State};
use brainfuck_rs::interpreters::raw::{Interpretation, Step};
use brainfuck_rs::Error;

fn typed(keys: &[KeyPress]) -> (u8, String) {
    let mut state = State::new();
    let mut entry = KeyEntry::new();
    let mut echoed = String::new();
    for key in keys {
        let r = entry.press(*key);
        echoed.push_str(&r.echo);
        if let Some(c) = r.done {
            state.store_key(c);
            return (state.tape[state.ptr], echoed);
        }
    }
    panic!("input never completed");
}

#[test]
fn inp_one() {
    assert_eq!(typed(&[KeyPress::Char('a'), KeyPress::Enter]), (b'a', String::from("a")));
}

#[test]
fn inp_two() {
    assert_eq!(
        typed(&[KeyPress::Char('b'), KeyPress::Char('c'), KeyPress::Enter]),
        (b'c', String::from("b\x7fc"))
    );
}

#[test]
fn inp_three() {
    assert_eq!(
        typed(&[KeyPress::Char('d'), KeyPress::Char('e'), KeyPress::Char('f'), KeyPress::Enter]),
        (b'f', String::from("d\x7fe\x7ff"))
    );
}

#[test]
fn inp_backspace() {
    assert_eq!(
        typed(&[KeyPress::Char('g'), KeyPress::Backspace, KeyPress::Char('h'), KeyPress::Enter]),
        (b'h', String::from("g\x7fh"))
    );
}

#[test]
fn inp_enter_without_character_waits() {
    assert_eq!(
        typed(&[KeyPress::Enter, KeyPress::Other, KeyPress::Char('z'), KeyPress::Enter]),
        (b'z', String::from("z"))
    );
}

#[test]
fn inp_stores_first_utf8_byte() {
    assert_eq!(typed(&[KeyPress::Char('é'), KeyPress::Enter]).0, 0xC3);
    assert_eq!(typed(&[KeyPress::Char('€'), KeyPress::Enter]).0, 0xE2);
    assert_eq!(typed(&[KeyPress::Char('😀'), KeyPress::Enter]).0, 0xF0);
}

#[test]
fn out_once() {
    let mut state = State::new();
    state.tape[state.ptr] = b'j';
    assert_eq!(state.out_bytes(1), b"j".to_vec());
}

#[test]
fn out_twice() {
    let mut state = State::new();
    state.tape[state.ptr] = b'k';
    assert_eq!(state.out_bytes(2), b"kk".to_vec());
}

fn added(starting: u8, amount: u8) -> u8 {
    let mut state = State::new();
    state.tape[state.ptr] = starting;
    state.add(amount);
    state.tape[state.ptr]
}

fn subtracted(starting: u8, amount: u8) -> u8 {
    let mut state = State::new();
    state.tape[state.ptr] = starting;
    state.sub(amount);
    state.tape[state.ptr]
}

#[test]
fn add_quarter() {
    assert_eq!(added(0, 64), 64);
}

#[test]
fn add_half() {
    assert_eq!(added(0, 128), 128);
}

#[test]
fn add_overflow() {
    assert_eq!(added(255, 129), 128);
}

#[test]
fn sub_quarter() {
    assert_eq!(subtracted(64, 64), 0);
}

#[test]
fn sub_half() {
    assert_eq!(subtracted(128, 128), 0);
}

#[test]
fn sub_overflow() {
    assert_eq!(subtracted(0, 128), 128);
}

#[test]
fn sub_undoes_add_on_a_cell() {
    let mut state = State::new();
    state.tape[7] = 200;
    state.ptr = 7;
    state.add(100).sub(100);
    assert_eq!(state.tape[7], 200);
}

#[test]
fn mvl_half() {
    let mut state = State::new();
    state.ptr = 30_000;
    state.mvl(15_000, 0, 0).expect("Failed to move past 0");
    assert_eq!(state.ptr, 15_000);
}

#[test]
fn mvl_underflow() {
    let mut state = State::new();
    state.ptr = 0;
    assert!(state.mvl(1, 0, 0).is_err());
}

#[test]
fn mvl_error_position() {
    let mut state = State::new();
    assert_eq!(state.mvl(1, 3, 4).unwrap_err(), Error::NegativeAddress((3, 4)));
    assert_eq!(state.ptr, 0);
}

#[test]
fn mvr_half() {
    let mut state = State::new();
    state.mvr(15_000, 0, 0).expect("Failed to move past 30_000");
    assert_eq!(state.ptr, 15_000);
}

#[test]
fn mvr_onto_cell_30_000_fails() {
    let mut state = State::new();
    state.ptr = 29_999;
    assert_eq!(state.mvr(1, 0, 1).unwrap_err(), Error::TooLargeAddress((0, 1)));
    assert_eq!(state.ptr, 29_999);
    state.mvr(0, 0, 0).unwrap();
    assert_eq!(state.ptr, 29_999);
}

#[test]
fn mvr_overflow() {
    let mut state = State::new();
    state.ptr = 30_000;
    assert!(state.mvr(1, 0, 0).is_err());
}

#[test]
fn mvr_overflowing_usize() {
    let mut state = State::new();
    state.ptr = 5;
    assert_eq!(state.mvr(usize::MAX, 1, 2).unwrap_err(), Error::TooLargeAddress((1, 2)));
    assert_eq!(state.ptr, 5);
}

#[test]
fn mvl_undoes_mvr() {
    let mut state = State::new();
    state.ptr = 10;
    state.mvr(25, 0, 0).unwrap();
    state.mvl(25, 0, 0).unwrap();
    assert_eq!(state.ptr, 10);
}

fn table_of(program: &str) -> Vec<(usize, usize)> {
    match State::from_string(program).jumps {
        Jump::Table(table) => table,
        Jump::Stack(_) => unreachable!(),
    }
}

#[test]
fn lop_table_empty() {
    assert_eq!(table_of("[]"), vec![(0, 1)]);
}

#[test]
fn lop_table_basic() {
    assert_eq!(table_of("[.]"), vec![(0, 2)]);
}

#[test]
fn lop_table_program() {
    assert_eq!(table_of(">-[++++[<]>->+]<"), vec![(2, 14), (7, 9)]);
}

#[test]
fn lop_table_pairs_matching_brackets() {
    assert_eq!(table_of("[][]"), vec![(0, 1), (2, 3)]);
    assert_eq!(table_of("[[]]"), vec![(0, 3), (1, 2)]);
    // an unclosed `[` ends at the length of the program; a stray `]` is passed over
    assert_eq!(table_of("][+[]"), vec![(1, 5), (3, 4)]);
    assert_eq!(table_of(""), vec![]);
}

#[test]
fn srt_on_table_jumps_by_the_bracket_at_the_position() {
    let mut state = State::new();
    state.jumps = Jump::Table(vec![(0, 1), (3, 4)]);
    state.pos = 3;
    state.srt(1);
    assert_eq!(state.pos, 4);
    assert_eq!(state.loop_num, 0);
    state.tape[0] = 1;
    state.pos = 3;
    state.srt(1);
    assert_eq!((state.pos, state.loop_num), (3, 1));
}

#[test]
fn end_on_table_goes_back_while_cell_is_set() {
    // at the `]` at 4 on a set cell: back to just before the `[` at 2, one
    // loop less deep, so that the `[` runs again
    let mut state = State::from_string("++[-]");
    state.tape[0] = 2;
    state.pos = 2;
    state.srt(1);
    assert_eq!((state.pos, state.loop_num), (2, 1));
    state.pos = 3;
    state.sub(1);
    state.pos = 4;
    state.end(1, 0, 5).unwrap();
    assert_eq!((state.pos, state.loop_num), (1, 0));
    state.tape[0] = 0;
    state.pos = 4;
    state.loop_num = 1;
    state.end(1, 0, 0).unwrap();
    assert_eq!((state.pos, state.loop_num), (4, 0));
    // the nested loop of a table [(0, 5), (2, 4)], one loop deep
    let mut state = State::new();
    state.jumps = Jump::Table(vec![(0, 5), (2, 4)]);
    state.loop_num = 1;
    state.pos = 4;
    state.tape[0] = 1;
    state.end(1, 0, 0).unwrap();
    assert_eq!((state.pos, state.loop_num), (1, 0));
}

#[test]
fn end_on_table_away_from_a_close_uses_the_depth() {
    // ended at a position where no `]` of the table stands: the loop
    // entered last, by depth, is gone back to
    let mut state = State::from_string("++[-]");
    state.tape[0] = 1;
    state.loop_num = 1;
    state.pos = 0;
    state.end(1, 0, 0).unwrap();
    assert_eq!((state.pos, state.loop_num), (1, 0));
}

fn stack_after(program: &str) -> Vec<usize> {
    let mut state = State::new();
    let chars: Vec<char> = program.chars().collect();
    while let Some(c) = chars.get(state.pos).copied() {
        match c {
            '+' => {
                state.add(1);
            }
            '-' => {
                state.sub(1);
            }
            '>' => {
                state.mvr(1, 0, 0).unwrap();
            }
            '<' => {
                state.mvl(1, 0, 0).unwrap();
            }
            '[' => {
                state.srt(1);
            }
            ']' => {
                state.end(1, 0, 0).unwrap();
            }
            ',' => panic!("Please do not enter input to this"),
            _ => (),
        }
        state.pos += 1;
    }
    match state.jumps {
        Jump::Stack(stack) => stack,
        Jump::Table(_) => unreachable!(),
    }
}

#[test]
fn lop_stack_empty() {
    assert_eq!(stack_after("["), vec![0]);
}

#[test]
fn lop_stack_basic() {
    assert_eq!(stack_after("[."), vec![0]);
}

#[test]
fn lop_stack_program() {
    assert_eq!(stack_after(">-[++++[<>->+<"), vec![2, 7]);
}

#[test]
fn end_on_empty_stack_fails() {
    let mut state = State::new();
    state.tape[0] = 1;
    assert_eq!(state.end(1, 2, 3).unwrap_err(), Error::UnmatchedEnd((2, 3)));
    state.tape[0] = 0;
    state.pos = 6;
    assert_eq!(state.end(1, 4, 5).unwrap_err(), Error::UnmatchedEnd((4, 5)));
    assert_eq!(state.pos, 6);
}

#[test]
fn end_on_stack_repeats_then_leaves_loop() {
    let mut state = State::new();
    state.tape[0] = 1;
    state.pos = 9;
    state.srt(3);
    state.pos = 40;
    state.end(1, 0, 0).unwrap();
    assert_eq!(state.pos, 9);
    state.pos = 40;
    state.end(1, 0, 0).unwrap();
    assert_eq!(state.pos, 9);
    match &state.jumps {
        Jump::Stack(stack) => assert_eq!(stack, &vec![9, 9, 9]),
        Jump::Table(_) => unreachable!(),
    }
    state.tape[0] = 0;
    state.pos = 40;
    state.end(3, 0, 0).unwrap();
    assert_eq!(state.pos, 40);
    match &state.jumps {
        Jump::Stack(stack) => assert!(stack.is_empty()),
        Jump::Table(_) => unreachable!(),
    }
    assert_eq!(state.end(1, 7, 8).unwrap_err(), Error::UnmatchedEnd((7, 8)));
}

#[test]
fn end_popping_more_than_pushed_fails() {
    let mut state = State::new();
    state.pos = 2;
    state.srt(1);
    assert_eq!(state.end(2, 1, 1).unwrap_err(), Error::UnmatchedEnd((1, 1)));
    match &state.jumps {
        Jump::Stack(stack) => assert!(stack.is_empty()),
        Jump::Table(_) => unreachable!(),
    }
}

#[test]
fn table_pos_on_stack_is_jump_type() {
    let state = State::new();
    assert_eq!(state.jumps.table_pos(0), Err(Error::JumpType));
    let table = State::from_string("[[]]");
    assert_eq!(table.jumps.table_pos(0), Ok((0, 3)));
    assert_eq!(table.jumps.table_pos(1), Ok((1, 2)));
}

/// Runs a program without input; the bytes written and how it ended.
fn run(program: &str) -> (Vec<u8>, Step) {
    let source = SourceProgram::new(String::from(program));
    let mut run: Interpretation = source.interpretation();
    let mut out = Vec::new();
    loop {
        assert!(run.can_step());
        match run.step() {
            Step::Continue => {}
            Step::Output(b) => out.push(b),
            Step::Input => panic!("no input here"),
            other => return (out, other),
        }
    }
}

#[test]
fn interpret_outputs_bytes() {
    let program = format!("{}..x", "+".repeat(65));
    assert_eq!(run(&program), (vec![65, 65], Step::Finished));
}

#[test]
fn interpret_runs_last_character() {
    assert_eq!(run("+."), (vec![1], Step::Finished));
    assert_eq!(run("<"), (vec![], Step::Failed(Error::NegativeAddress((0, 1)))));
}

#[test]
fn interpret_empty_program() {
    assert_eq!(run(""), (vec![], Step::Finished));
}

#[test]
fn interpret_past_the_tape() {
    let program = ">".repeat(30_000);
    assert_eq!(run(&program).1, Step::Failed(Error::TooLargeAddress((0, 30_000))));
}

#[test]
fn interpret_skips_loop_on_zero_cell() {
    assert_eq!(run("[.]+.x"), (vec![1], Step::Finished));
}

#[test]
fn interpret_reports_negative_address_position() {
    // the position of the failing character in the program text: lines
    // from 0, characters within the line from 1
    assert_eq!(run("+\n+<x").1, Step::Failed(Error::NegativeAddress((1, 2))));
    assert_eq!(run("++[-]<").1, Step::Failed(Error::NegativeAddress((0, 6))));
    assert_eq!(run("+[-]\n\n<").1, Step::Failed(Error::NegativeAddress((2, 1))));
}

#[test]
fn interpret_runs_loops() {
    assert_eq!(run("++[-]x"), (vec![], Step::Finished));
    assert_eq!(run("++[>+++<-]>."), (vec![6], Step::Finished));
    // a nested loop: 3 * 4 * 5
    assert_eq!(run("+++[>++++[>+++++<-]<-]>>."), (vec![60], Step::Finished));
    // two loops one after another
    assert_eq!(run("++[-]+++[>++<-]>."), (vec![6], Step::Finished));
}

#[test]
fn interpret_stray_close_on_nonzero_cell_cannot_go_on() {
    let source = SourceProgram::new(String::from("+]"));
    let mut run = source.interpretation();
    assert_eq!(run.step(), Step::Continue);
    assert!(!run.can_step());
}

#[test]
fn interpret_input_then_store() {
    let source = SourceProgram::new(String::from(",.x"));
    let mut run = source.interpretation();
    assert_eq!(run.step(), Step::Input);
    run.state.store_key('q');
    assert_eq!(run.step(), Step::Output(b'q'));
    assert_eq!(run.step(), Step::Continue);
    assert_eq!(run.step(), Step::Finished);
    assert_eq!(run.step(), Step::Finished);
}
