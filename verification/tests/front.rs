use brainfuck_rs::compiler::front::objects::{BaseOp, Block, Node, SourceProgram, TokenStream};
use brainfuck_rs::pre_proccesser;
use brainfuck_rs::Error;

fn lexed(program: &str) -> Vec<BaseOp> {
    SourceProgram::new(String::from(program)).lex().0
}

#[test]
fn lex_add() {
    assert_eq!(lexed("+++"), vec![BaseOp::Add; 3]);
}

#[test]
fn lex_sub() {
    assert_eq!(lexed("---"), vec![BaseOp::Sub; 3]);
}

#[test]
fn lex_mvl() {
    assert_eq!(lexed("<<<"), vec![BaseOp::Mvl; 3]);
}

#[test]
fn lex_mvr() {
    assert_eq!(lexed(">>>"), vec![BaseOp::Mvr; 3]);
}

#[test]
fn lex_out() {
    assert_eq!(lexed("..."), vec![BaseOp::Out; 3]);
}

#[test]
fn lex_inp() {
    assert_eq!(lexed(",,,"), vec![BaseOp::Inp; 3]);
}

#[test]
fn lex_srt() {
    assert_eq!(lexed("[[["), vec![BaseOp::Srt; 3]);
}

#[test]
fn lex_end() {
    assert_eq!(lexed("]]]"), vec![BaseOp::End; 3]);
}

#[test]
fn lex_mixed() {
    assert_eq!(
        lexed(",+++++[>+++++<-]>."),
        vec![
            BaseOp::Inp,
            BaseOp::Add,
            BaseOp::Add,
            BaseOp::Add,
            BaseOp::Add,
            BaseOp::Add,
            BaseOp::Srt,
            BaseOp::Mvr,
            BaseOp::Add,
            BaseOp::Add,
            BaseOp::Add,
            BaseOp::Add,
            BaseOp::Add,
            BaseOp::Mvl,
            BaseOp::Sub,
            BaseOp::End,
            BaseOp::Mvr,
            BaseOp::Out,
        ]
    );
}

#[test]
fn lex_keeps_other_characters_and_lines() {
    assert_eq!(
        lexed("a+\nb"),
        vec![BaseOp::CharCount, BaseOp::Add, BaseOp::NewLine, BaseOp::CharCount]
    );
}

#[test]
fn lex_counts_unicode_characters_once() {
    assert_eq!(lexed("é+"), vec![BaseOp::CharCount, BaseOp::Add]);
}

fn parsed(program: &str) -> Block {
    SourceProgram::new(String::from(program)).lex().parse().0
}

#[test]
fn parsing_add() {
    assert_eq!(parsed("+++"), Block::new(vec![Node::Add, Node::Add, Node::Add]));
}

#[test]
fn parsing_sub() {
    assert_eq!(parsed("---"), Block::new(vec![Node::Sub, Node::Sub, Node::Sub]));
}

#[test]
fn parsing_mvr() {
    assert_eq!(parsed(">>>"), Block::new(vec![Node::Mvr, Node::Mvr, Node::Mvr]));
}

#[test]
fn parsing_mvl() {
    assert_eq!(parsed("<<<"), Block::new(vec![Node::Mvl, Node::Mvl, Node::Mvl]));
}

#[test]
fn parsing_out() {
    assert_eq!(parsed("..."), Block::new(vec![Node::Out, Node::Out, Node::Out]));
}

#[test]
fn parsing_inp() {
    assert_eq!(parsed(",,,"), Block::new(vec![Node::Inp, Node::Inp, Node::Inp]));
}

#[test]
fn parsing_lop() {
    assert_eq!(
        parsed("[...]"),
        Block::new(vec![Node::Lop(Block::new(vec![Node::Out, Node::Out, Node::Out]))])
    );
}

#[test]
fn parsing_mixed() {
    assert_eq!(
        parsed(",+++++[>+++++<-]>."),
        Block::new(vec![
            Node::Inp,
            Node::Add,
            Node::Add,
            Node::Add,
            Node::Add,
            Node::Add,
            Node::Lop(Block::new(vec![
                Node::Mvr,
                Node::Add,
                Node::Add,
                Node::Add,
                Node::Add,
                Node::Add,
                Node::Mvl,
                Node::Sub,
            ])),
            Node::Mvr,
            Node::Out,
        ])
    );
}

#[test]
fn parse_counts_every_token_read() {
    let mut stream = SourceProgram::new(String::from("[.]+")).lex();
    let (_, count) = stream.parse();
    assert_eq!(count, 4);
    // the stream is left as it was
    assert_eq!(stream.0.len(), 4);
}

#[test]
fn parse_stops_at_unmatched_end() {
    let mut stream = SourceProgram::new(String::from("+]+")).lex();
    let (block, count) = stream.parse();
    assert_eq!(block, Block::new(vec![Node::Add]));
    assert_eq!(count, 2);
}

#[test]
fn parse_without_loops_keeps_every_token() {
    let (block, count) = SourceProgram::new(String::from("a+\n")).lex().parse();
    assert_eq!(block, Block::new(vec![Node::CharCount, Node::Add, Node::NewLine]));
    assert_eq!(count, 3);
}

#[test]
fn parse_doubly_nested_loop() {
    let (block, count) = SourceProgram::new(String::from("[[+]+]-")).lex().parse();
    assert_eq!(
        block,
        Block::new(vec![
            Node::Lop(Block::new(vec![Node::Lop(Block::new(vec![Node::Add])), Node::Add])),
            Node::Sub,
        ])
    );
    assert_eq!(count, 7);
}

fn written_out(block: &Block, out: &mut Vec<BaseOp>) {
    for node in &block.0 {
        match node {
            Node::Add => out.push(BaseOp::Add),
            Node::Sub => out.push(BaseOp::Sub),
            Node::Mvr => out.push(BaseOp::Mvr),
            Node::Mvl => out.push(BaseOp::Mvl),
            Node::Out => out.push(BaseOp::Out),
            Node::Inp => out.push(BaseOp::Inp),
            Node::CharCount => out.push(BaseOp::CharCount),
            Node::NewLine => out.push(BaseOp::NewLine),
            Node::Lop(body) => {
                out.push(BaseOp::Srt);
                written_out(body, out);
                out.push(BaseOp::End);
            }
        }
    }
}

#[test]
fn parse_round_trip_on_balanced_program() {
    let program = "++[>[-]<[->+<]]\n[[][.]],";
    let mut stream = SourceProgram::new(String::from(program)).lex();
    let tokens = stream.0.clone();
    let (block, count) = stream.parse();
    assert_eq!(count, tokens.len());
    let mut out = Vec::new();
    written_out(&block, &mut out);
    assert_eq!(out, tokens);
}

#[test]
fn block_push() {
    let mut manual = Block::default();
    for _ in 0..3 {
        manual.push(Node::Add);
    }
    assert_eq!(manual, Block::new(vec![Node::Add, Node::Add, Node::Add]));
}

#[test]
fn stream_push() {
    let mut manual = TokenStream::default();
    for _ in 0..3 {
        manual.push(BaseOp::Add);
    }
    assert_eq!(manual, TokenStream::new(vec![BaseOp::Add; 3]));
}

#[test]
fn rm_comments_drops_leading_comment() {
    let stream = SourceProgram::new(String::from("[a comment [nested]]+++")).lex();
    let rest = SourceProgram::rm_comments(stream).unwrap();
    assert_eq!(rest, TokenStream::new(vec![BaseOp::Add; 3]));
}

#[test]
fn rm_comments_drops_every_leading_comment() {
    let stream = TokenStream::new(vec![
        BaseOp::Srt,
        BaseOp::End,
        BaseOp::Srt,
        BaseOp::CharCount,
        BaseOp::End,
        BaseOp::Out,
        BaseOp::Srt,
        BaseOp::End,
    ]);
    let rest = SourceProgram::rm_comments(stream).unwrap();
    assert_eq!(rest, TokenStream::new(vec![BaseOp::Out, BaseOp::Srt, BaseOp::End]));
}

#[test]
fn rm_comments_keeps_program_without_comment() {
    let stream = TokenStream::new(vec![BaseOp::Add, BaseOp::Srt, BaseOp::End]);
    let rest = SourceProgram::rm_comments(stream).unwrap();
    assert_eq!(rest, TokenStream::new(vec![BaseOp::Add, BaseOp::Srt, BaseOp::End]));
}

#[test]
fn rm_comments_unmatched_start() {
    // the error stands at the `[` that is left unclosed; every token but a
    // line break moves one character on
    let stream = SourceProgram::new(String::from("[a\n[")).lex();
    let err = SourceProgram::rm_comments(stream).unwrap_err();
    assert_eq!(err, Error::UnmatchedStart((0, 0)));
    let stream = SourceProgram::new(String::from("[+[]")).lex();
    assert_eq!(SourceProgram::rm_comments(stream).unwrap_err(), Error::UnmatchedStart((0, 0)));
    let stream = SourceProgram::new(String::from("[][")).lex();
    assert_eq!(SourceProgram::rm_comments(stream).unwrap_err(), Error::UnmatchedStart((0, 2)));
    // after the closed comment `[+]`, the second group starts at character 3
    let stream = SourceProgram::new(String::from("[+][a[]")).lex();
    assert_eq!(SourceProgram::rm_comments(stream).unwrap_err(), Error::UnmatchedStart((0, 3)));
    // on the next line, after `]`
    let stream = SourceProgram::new(String::from("[\n][")).lex();
    assert_eq!(SourceProgram::rm_comments(stream).unwrap_err(), Error::UnmatchedStart((1, 1)));
}

#[test]
fn rm_comments_drops_groups_before_the_rest() {
    let rest = vec![BaseOp::Out, BaseOp::Srt, BaseOp::End, BaseOp::Add];
    let mut stream = vec![BaseOp::Srt, BaseOp::Srt, BaseOp::End, BaseOp::End];
    stream.extend(vec![BaseOp::Srt, BaseOp::NewLine, BaseOp::End]);
    stream.extend(rest.clone());
    let out = SourceProgram::rm_comments(TokenStream::new(stream)).unwrap();
    assert_eq!(out, TokenStream::new(rest));
    let out = SourceProgram::rm_comments(TokenStream::new(vec![BaseOp::Srt, BaseOp::End])).unwrap();
    assert_eq!(out, TokenStream::new(vec![]));
}

#[test]
fn rm_comments_twice_removes_nothing_more() {
    let stream = SourceProgram::new(String::from("[x]+[y]")).lex();
    let once = SourceProgram::rm_comments(stream).unwrap();
    let again = SourceProgram::rm_comments(TokenStream::new(once.0.clone())).unwrap();
    assert_eq!(once, again);
    assert_eq!(once.0[0], BaseOp::Add);
}

#[test]
fn first_front_end_lex_keeps_commands_only() {
    let program = pre_proccesser::SourceProgram(String::from("a+b-c"));
    let stream = program.lex().unwrap();
    assert_eq!(stream.0, vec![pre_proccesser::BaseOp::Add, pre_proccesser::BaseOp::Sub]);
}

#[test]
fn first_front_end_lex_removes_comment() {
    let program = pre_proccesser::SourceProgram(String::from("[comment.]+."));
    let stream = program.lex().unwrap();
    assert_eq!(stream.0, vec![pre_proccesser::BaseOp::Add, pre_proccesser::BaseOp::Out]);
}

#[test]
fn first_front_end_lex_unmatched_start() {
    let program = pre_proccesser::SourceProgram(String::from("[[]+"));
    assert_eq!(program.lex(), Err("Unmatched ["));
}

#[test]
fn first_front_end_parse() {
    let program = pre_proccesser::SourceProgram(String::from("+[-.]>"));
    let (block, count) = program.lex().unwrap().parse();
    assert_eq!(
        block,
        pre_proccesser::Block(vec![
            pre_proccesser::Node::Add,
            pre_proccesser::Node::Lop(pre_proccesser::Block(vec![
                pre_proccesser::Node::Sub,
                pre_proccesser::Node::Out,
            ])),
            pre_proccesser::Node::Mvr,
        ])
    );
    assert_eq!(count, 6);
}

#[test]
fn first_front_end_block_push() {
    let mut block = pre_proccesser::Block(Vec::new());
    block.push(pre_proccesser::Node::Out);
    assert_eq!(block, pre_proccesser::Block(vec![pre_proccesser::Node::Out]));
}

#[test]
fn tree_tokens_parse_back_to_the_tree() {
    let stream = SourceProgram::new(String::from("+[->[.]<]x\n,")).lex();
    let (tree, count) = TokenStream::new(stream.0.clone()).parse();
    assert_eq!(count, stream.0.len());
    let written = tree.tokens();
    assert_eq!(written, stream);
    let (again, _) = TokenStream::new(written.0.clone()).parse();
    assert_eq!(again, tree);
}
