use std::collections::VecDeque;

use brainfuck_rust::emitter::install_tape;
use brainfuck_rust::emitter::Emitter;
use brainfuck_rust::emitter::TAPE_CELLS;
use brainfuck_rust::error::CompileError;
use brainfuck_rust::instructions::build_add;
use brainfuck_rust::instructions::build_add_ptr;
use brainfuck_rust::instructions::build_get;
use brainfuck_rust::instructions::build_put;
use brainfuck_rust::instructions::build_while_end;
use brainfuck_rust::instructions::build_while_start;
use brainfuck_rust::instructions::store_input;
use brainfuck_rust::instructions::WhileBlock;
use brainfuck_rust::ir::decimal_string;
use brainfuck_rust::ir::Label;
use brainfuck_rust::ir::LabelKind;
use brainfuck_rust::ir::Op;
use brainfuck_rust::ir::Place;
use inkwell::context::Context;

fn text(emitter: &Emitter) -> String {
    emitter.module().print_to_string().to_string()
}

fn label(kind: LabelKind, depth: usize) -> Label {
    Label { kind, depth }
}

#[test]
fn open_sets_up_entry_and_slots() {
    let context = Context::create();
    let emitter = Emitter::open(&context);
    assert_eq!(
        emitter.ops().clone(),
        vec![
            Op::Block { id: 0, label: label(LabelKind::Entry, 0) },
            Op::Position { block: 0 },
            Op::Reserve { place: Place::Base },
            Op::Reserve { place: Place::Cursor },
        ]
    );
    assert_eq!(emitter.block_count(), 1);
    assert_eq!(emitter.current_block(), 0);
    let ir = text(&emitter);
    assert!(ir.contains("; ModuleID = 'brainfuck_rust'"));
    assert!(ir.contains("declare i8* @calloc(i64, i64)"));
    assert!(ir.contains("declare i32 @getchar()"));
    assert!(ir.contains("declare i32 @putchar(i32)"));
    assert!(ir.contains("define i32 @main() {\nentry:\n  %data = alloca i8*, align 8\n  %ptr = alloca i8*, align 8\n"));
    assert!(!ir.contains("@calloc(i64 30000"));
}

#[test]
fn new_allocates_the_tape() {
    let context = Context::create();
    let emitter = Emitter::new(&context).unwrap();
    assert_eq!(TAPE_CELLS, 30000);
    assert_eq!(
        emitter.ops()[4..].to_vec(),
        vec![
            Op::Allocate { cells: 30000 },
            Op::Save { place: Place::Base, val: 4 },
            Op::Save { place: Place::Cursor, val: 4 },
        ]
    );
    assert_eq!(emitter.ops().len(), 7);
    let ir = text(&emitter);
    assert!(ir.contains(
        "  %calloc_call = call i8* @calloc(i64 30000, i64 1)\n  store i8* %calloc_call, i8** %data, align 8\n  store i8* %calloc_call, i8** %ptr, align 8\n"
    ));
}

#[test]
fn install_tape_without_an_address_fails() {
    let context = Context::create();
    let mut emitter = Emitter::open(&context);
    let before = emitter.ops().clone();
    assert_eq!(install_tape(&mut emitter, None), Err(CompileError::AllocBridge));
    assert_eq!(emitter.ops().clone(), before);
}

#[test]
fn finish_releases_and_returns() {
    let context = Context::create();
    let mut emitter = Emitter::new(&context).unwrap();
    emitter.finish();
    assert_eq!(
        emitter.ops()[7..].to_vec(),
        vec![Op::Fetch { place: Place::Base }, Op::Release { addr: 7 }, Op::Return]
    );
    let ir = text(&emitter);
    assert!(ir.contains("  %load = load i8*, i8** %data, align 8\n  tail call void @free(i8* %load)\n  ret i32 0\n}"));
    assert!(emitter.module().verify().is_ok());
}

#[test]
fn add_loads_adds_and_stores() {
    let context = Context::create();
    let mut emitter = Emitter::new(&context).unwrap();
    build_add(&mut emitter, 1);
    assert_eq!(
        emitter.ops()[7..].to_vec(),
        vec![
            Op::Fetch { place: Place::Cursor },
            Op::Load { addr: 7 },
            Op::Add { lhs: 8, amt: 1 },
            Op::Store { addr: 7, val: 9 },
        ]
    );
    build_add(&mut emitter, -1);
    assert_eq!(
        emitter.ops()[11..].to_vec(),
        vec![
            Op::Fetch { place: Place::Cursor },
            Op::Load { addr: 11 },
            Op::Add { lhs: 12, amt: -1 },
            Op::Store { addr: 11, val: 13 },
        ]
    );
    assert_eq!(emitter.block_count(), 1);
    assert_eq!(emitter.current_block(), 0);
    let ir = text(&emitter);
    assert!(ir.contains(
        "  %\"load ptr\" = load i8*, i8** %ptr, align 8\n  %\"load ptr value\" = load i8, i8* %\"load ptr\", align 1\n  %\"add data to ptr\" = add i8 %\"load ptr value\", 1\n  store i8 %\"add data to ptr\", i8* %\"load ptr\", align 1\n"
    ));
    assert!(ir.contains("= add i8 %\"load ptr value2\", -1\n"));
}

#[test]
fn add_keeps_the_low_byte_of_the_amount() {
    let context = Context::create();
    let mut emitter = Emitter::new(&context).unwrap();
    build_add(&mut emitter, 257);
    build_add(&mut emitter, 255);
    assert_eq!(emitter.ops()[9], Op::Add { lhs: 8, amt: 257 });
    let ir = text(&emitter);
    assert!(ir.contains("= add i8 %\"load ptr value\", 1\n"));
    assert!(ir.contains("= add i8 %\"load ptr value2\", -1\n"));
}

#[test]
fn add_ptr_moves_the_cursor() {
    let context = Context::create();
    let mut emitter = Emitter::new(&context).unwrap();
    build_add_ptr(&mut emitter, 1);
    build_add_ptr(&mut emitter, -1);
    assert_eq!(
        emitter.ops()[7..].to_vec(),
        vec![
            Op::Fetch { place: Place::Cursor },
            Op::Offset { base: 7, amt: 1 },
            Op::Save { place: Place::Cursor, val: 8 },
            Op::Fetch { place: Place::Cursor },
            Op::Offset { base: 10, amt: -1 },
            Op::Save { place: Place::Cursor, val: 11 },
        ]
    );
    let ir = text(&emitter);
    assert!(ir.contains(
        "  %\"load ptr\" = load i8*, i8** %ptr, align 8\n  %\"add to pointer\" = ptrtoint i8* %\"load ptr\" to i64\n  %\"add to pointer1\" = add i64 %\"add to pointer\", 1\n  %\"add to pointer2\" = inttoptr i64 %\"add to pointer1\" to i8*\n  store i8* %\"add to pointer2\", i8** %ptr, align 8\n"
    ));
    assert!(ir.contains("= add i64 %\"add to pointer4\", -1\n"));
}

#[test]
fn put_extends_and_writes() {
    let context = Context::create();
    let mut emitter = Emitter::new(&context).unwrap();
    build_put(&mut emitter);
    assert_eq!(
        emitter.ops()[7..].to_vec(),
        vec![
            Op::Fetch { place: Place::Cursor },
            Op::Load { addr: 7 },
            Op::Extend { src: 8 },
            Op::Write { arg: 9 },
        ]
    );
    let ir = text(&emitter);
    assert!(ir.contains(
        "  %\"load ptr value\" = load i8*, i8** %ptr, align 8\n  %\"load ptr ptr value\" = load i8, i8* %\"load ptr value\", align 1\n  %\"putchar sign extend\" = sext i8 %\"load ptr ptr value\" to i32\n  %\"putchar call\" = call i32 @putchar(i32 %\"putchar sign extend\")\n"
    ));
}

#[test]
fn get_reads_truncates_and_stores() {
    let context = Context::create();
    let mut emitter = Emitter::new(&context).unwrap();
    assert_eq!(build_get(&mut emitter), Ok(()));
    assert_eq!(
        emitter.ops()[7..].to_vec(),
        vec![
            Op::Read,
            Op::Truncate { src: 7 },
            Op::Fetch { place: Place::Cursor },
            Op::Store { addr: 9, val: 8 },
        ]
    );
    let ir = text(&emitter);
    assert!(ir.contains(
        "  %\"getchar call\" = call i32 @getchar()\n  %\"getchar truncate result\" = trunc i32 %\"getchar call\" to i8\n  %\"load ptr value\" = load i8*, i8** %ptr, align 8\n  store i8 %\"getchar truncate result\", i8* %\"load ptr value\", align 1\n"
    ));
}

#[test]
fn store_input_without_a_character_fails() {
    let context = Context::create();
    let mut emitter = Emitter::new(&context).unwrap();
    let before = emitter.ops().clone();
    let ir_before = text(&emitter);
    assert_eq!(store_input(&mut emitter, None), Err(CompileError::IoBridge));
    assert_eq!(emitter.ops().clone(), before);
    assert_eq!(text(&emitter), ir_before);
}

#[test]
fn while_start_builds_the_loop_skeleton() {
    let context = Context::create();
    let mut emitter = Emitter::new(&context).unwrap();
    let mut while_blocks = VecDeque::new();
    build_while_start(&mut emitter, &mut while_blocks);
    assert_eq!(
        emitter.ops()[7..].to_vec(),
        vec![
            Op::Block { id: 1, label: label(LabelKind::WhileStart, 1) },
            Op::Block { id: 2, label: label(LabelKind::WhileBody, 1) },
            Op::Block { id: 3, label: label(LabelKind::WhileEnd, 1) },
            Op::Jump { target: 1 },
            Op::Position { block: 1 },
            Op::Fetch { place: Place::Cursor },
            Op::Load { addr: 12 },
            Op::NonZero { val: 13 },
            Op::JumpIf { cond: 14, then_block: 2, else_block: 3 },
            Op::Position { block: 2 },
        ]
    );
    assert_eq!(
        while_blocks,
        VecDeque::from(vec![WhileBlock { while_start: 1, while_body: 2, while_end: 3 }])
    );
    assert_eq!(emitter.block_count(), 4);
    assert_eq!(emitter.current_block(), 2);
    let ir = text(&emitter);
    assert!(ir.contains(
        "  br label %\"while_start 1\"\n\n\"while_start 1\":"
    ));
    assert!(ir.contains(
        "  %\"load ptr\" = load i8*, i8** %ptr, align 8\n  %\"load ptr value\" = load i8, i8* %\"load ptr\", align 1\n  %\"compare value at pointer to zero\" = icmp ne i8 %\"load ptr value\", 0\n  br i1 %\"compare value at pointer to zero\", label %\"while_body 1\", label %\"while_end 1\"\n"
    ));
}

#[test]
fn while_start_pushes_to_the_front_and_tags_the_depth() {
    let context = Context::create();
    let mut emitter = Emitter::new(&context).unwrap();
    let mut while_blocks = VecDeque::new();
    build_while_start(&mut emitter, &mut while_blocks);
    build_while_start(&mut emitter, &mut while_blocks);
    assert_eq!(
        while_blocks,
        VecDeque::from(vec![
            WhileBlock { while_start: 4, while_body: 5, while_end: 6 },
            WhileBlock { while_start: 1, while_body: 2, while_end: 3 },
        ])
    );
    assert_eq!(emitter.ops()[17], Op::Block { id: 4, label: label(LabelKind::WhileStart, 2) });
    assert_eq!(emitter.ops()[18], Op::Block { id: 5, label: label(LabelKind::WhileBody, 2) });
    assert_eq!(emitter.ops()[19], Op::Block { id: 6, label: label(LabelKind::WhileEnd, 2) });
    assert_eq!(emitter.current_block(), 5);
    let ir = text(&emitter);
    assert!(ir.contains("\"while_body 1\":"));
    assert!(ir.contains("  br label %\"while_start 2\"\n"));
    assert!(ir.contains("\"while_end 2\":"));
}

#[test]
fn while_end_branches_back_and_moves_behind_the_loop() {
    let context = Context::create();
    let mut emitter = Emitter::new(&context).unwrap();
    let mut while_blocks = VecDeque::new();
    build_while_start(&mut emitter, &mut while_blocks);
    build_while_start(&mut emitter, &mut while_blocks);
    let n = emitter.ops().len();
    assert_eq!(build_while_end(&mut emitter, &mut while_blocks), Ok(()));
    assert_eq!(
        emitter.ops()[n..].to_vec(),
        vec![Op::Jump { target: 4 }, Op::Position { block: 6 }]
    );
    assert_eq!(
        while_blocks,
        VecDeque::from(vec![WhileBlock { while_start: 1, while_body: 2, while_end: 3 }])
    );
    assert_eq!(emitter.current_block(), 6);
    assert_eq!(build_while_end(&mut emitter, &mut while_blocks), Ok(()));
    assert_eq!(
        emitter.ops()[n + 2..].to_vec(),
        vec![Op::Jump { target: 1 }, Op::Position { block: 3 }]
    );
    assert!(while_blocks.is_empty());
    assert_eq!(emitter.current_block(), 3);
    assert_eq!(emitter.block_count(), 7);
    emitter.finish();
    assert!(emitter.module().verify().is_ok());
}

#[test]
fn while_end_on_an_empty_stack_requests_nothing() {
    let context = Context::create();
    let mut emitter = Emitter::new(&context).unwrap();
    let mut while_blocks = VecDeque::new();
    let before = emitter.ops().clone();
    let ir_before = text(&emitter);
    assert_eq!(
        build_while_end(&mut emitter, &mut while_blocks),
        Err(CompileError::UnmatchedCloseBracket)
    );
    assert_eq!(emitter.ops().clone(), before);
    assert!(while_blocks.is_empty());
    assert_eq!(emitter.current_block(), 0);
    assert_eq!(text(&emitter), ir_before);
    assert!(!text(&emitter).contains("br "));
}

#[test]
fn messages_name_the_failure() {
    assert_eq!(CompileError::UnmatchedCloseBracket.message(), "error: unmatched `]`");
    assert_eq!(CompileError::IoBridge.message(), "getchar returned void");
    assert_eq!(CompileError::AllocBridge.message(), "calloc returned void");
}

#[test]
fn labels_are_named_by_purpose_and_depth() {
    assert_eq!(label(LabelKind::Entry, 0).name(), "entry");
    assert_eq!(label(LabelKind::Entry, 7).name(), "entry");
    assert_eq!(label(LabelKind::WhileStart, 1).name(), "while_start 1");
    assert_eq!(label(LabelKind::WhileBody, 10).name(), "while_body 10");
    assert_eq!(label(LabelKind::WhileEnd, 0).name(), "while_end 0");
    assert_eq!(label(LabelKind::WhileStart, 12345).name(), "while_start 12345");
    assert_eq!(
        label(LabelKind::WhileEnd, 18446744073709551615).name(),
        "while_end 18446744073709551615"
    );
}

#[test]
fn numbers_are_written_in_decimal() {
    assert_eq!(decimal_string(0), "0");
    assert_eq!(decimal_string(7), "7");
    assert_eq!(decimal_string(10), "10");
    assert_eq!(decimal_string(99), "99");
    assert_eq!(decimal_string(100), "100");
    assert_eq!(decimal_string(1234567890), "1234567890");
    assert_eq!(decimal_string(usize::MAX), usize::MAX.to_string());
}
