use std::collections::VecDeque;

use brainfuck_rust::driver::compile;
use brainfuck_rust::driver::compile_into;
use brainfuck_rust::emitter::Emitter;
use brainfuck_rust::error::CompileError;
use brainfuck_rust::instructions::WhileBlock;
use brainfuck_rust::ir::Label;
use brainfuck_rust::ir::LabelKind;
use brainfuck_rust::ir::Op;
use brainfuck_rust::ir::Place;
use inkwell::context::Context;

/// What running a listing gave.
struct Outcome {
    tape: Vec<u8>,
    cursor: i64,
    output: Vec<i64>,
    visited: Vec<usize>,
    released: bool,
    returned: bool,
}

/// Runs a listing as the compiled program would run: block by block from the
/// entry, following the branches.
fn run(ops: &[Op], input: &[i64]) -> Outcome {
    let blocks = ops.iter().filter(|op| matches!(op, Op::Block { .. })).count();
    let mut code: Vec<Vec<usize>> = vec![Vec::new(); blocks];
    let mut at = 0;
    for (i, op) in ops.iter().enumerate() {
        match op {
            Op::Block { .. } => {}
            Op::Position { block } => at = *block,
            _ => code[at].push(i),
        }
    }
    let mut vals = vec![0i64; ops.len()];
    let mut out = Outcome {
        tape: Vec::new(),
        cursor: 0,
        output: Vec::new(),
        visited: vec![0],
        released: false,
        returned: false,
    };
    let mut base = -1i64;
    let mut input = input.iter();
    let mut block = 0;
    let mut pc = 0;
    let mut steps = 0;
    while !out.returned {
        steps += 1;
        assert!(steps < 1_000_000, "the program does not end");
        let i = code[block][pc];
        pc += 1;
        match ops[i] {
            Op::Allocate { cells } => {
                out.tape = vec![0; cells as usize];
                vals[i] = 0;
            }
            Op::Save { place: Place::Base, val } => base = vals[val],
            Op::Save { place: Place::Cursor, val } => out.cursor = vals[val],
            Op::Fetch { place: Place::Base } => vals[i] = base,
            Op::Fetch { place: Place::Cursor } => vals[i] = out.cursor,
            Op::Load { addr } => vals[i] = out.tape[vals[addr] as usize] as i64,
            Op::Store { addr, val } => out.tape[vals[addr] as usize] = vals[val] as u8,
            Op::Add { lhs, amt } => vals[i] = (vals[lhs] + amt as i64).rem_euclid(256),
            Op::Offset { base, amt } => vals[i] = vals[base] + amt as i64,
            Op::Extend { src } => vals[i] = vals[src] as u8 as i8 as i64,
            Op::Truncate { src } => vals[i] = vals[src].rem_euclid(256),
            Op::Read => vals[i] = *input.next().unwrap_or(&-1),
            Op::Write { arg } => out.output.push(vals[arg]),
            Op::NonZero { val } => vals[i] = (vals[val] != 0) as i64,
            Op::Jump { target } => {
                block = target;
                pc = 0;
                out.visited.push(block);
            }
            Op::JumpIf { cond, then_block, else_block } => {
                block = if vals[cond] != 0 { then_block } else { else_block };
                pc = 0;
                out.visited.push(block);
            }
            Op::Release { addr } => {
                assert_eq!(vals[addr], 0);
                out.released = true;
            }
            Op::Return => out.returned = true,
            Op::Reserve { .. } => {}
            Op::Block { .. } | Op::Position { .. } => unreachable!(),
        }
    }
    out
}

fn listing(source: &str) -> Vec<Op> {
    let context = Context::create();
    let emitter = compile(&context, source).unwrap();
    assert!(emitter.module().verify().is_ok());
    emitter.ops().clone()
}

fn body(source: &str) -> Vec<Op> {
    let ops = listing(source);
    ops[7..ops.len() - 3].to_vec()
}

fn ir(source: &str) -> String {
    let context = Context::create();
    let emitter = compile(&context, source).unwrap();
    emitter.module().print_to_string().to_string()
}

#[test]
fn empty_program_allocates_releases_and_returns() {
    let ops = listing("");
    assert_eq!(
        ops,
        vec![
            Op::Block { id: 0, label: Label { kind: LabelKind::Entry, depth: 0 } },
            Op::Position { block: 0 },
            Op::Reserve { place: Place::Base },
            Op::Reserve { place: Place::Cursor },
            Op::Allocate { cells: 30000 },
            Op::Save { place: Place::Base, val: 4 },
            Op::Save { place: Place::Cursor, val: 4 },
            Op::Fetch { place: Place::Base },
            Op::Release { addr: 7 },
            Op::Return,
        ]
    );
    let out = run(&ops, &[]);
    assert_eq!(out.tape, vec![0u8; 30000]);
    assert_eq!(out.cursor, 0);
    assert!(out.released && out.returned);
    assert_eq!(
        ir(""),
        "; ModuleID = 'brainfuck_rust'\nsource_filename = \"brainfuck_rust\"\n\ndeclare i8* @calloc(i64, i64)\n\ndeclare i32 @getchar()\n\ndeclare i32 @putchar(i32)\n\ndefine i32 @main() {\nentry:\n  %data = alloca i8*, align 8\n  %ptr = alloca i8*, align 8\n  %calloc_call = call i8* @calloc(i64 30000, i64 1)\n  store i8* %calloc_call, i8** %data, align 8\n  store i8* %calloc_call, i8** %ptr, align 8\n  %load = load i8*, i8** %data, align 8\n  tail call void @free(i8* %load)\n  ret i32 0\n}\n\ndeclare void @free(i8*)\n"
    );
}

#[test]
fn each_command_has_its_requests() {
    assert_eq!(
        body("+"),
        vec![
            Op::Fetch { place: Place::Cursor },
            Op::Load { addr: 7 },
            Op::Add { lhs: 8, amt: 1 },
            Op::Store { addr: 7, val: 9 },
        ]
    );
    assert_eq!(body("-")[2], Op::Add { lhs: 8, amt: -1 });
    assert_eq!(
        body(">"),
        vec![
            Op::Fetch { place: Place::Cursor },
            Op::Offset { base: 7, amt: 1 },
            Op::Save { place: Place::Cursor, val: 8 },
        ]
    );
    assert_eq!(body("<")[1], Op::Offset { base: 7, amt: -1 });
    assert_eq!(body(".")[3], Op::Write { arg: 9 });
    assert_eq!(body(",")[0], Op::Read);
    assert_eq!(body("[]")[10..].to_vec(), vec![Op::Jump { target: 1 }, Op::Position { block: 3 }]);
}

#[test]
fn other_characters_are_ignored() {
    assert_eq!(listing("a+ b\n\u{e9}\u{4e16}+c"), listing("++"));
    assert_eq!(listing("hello world\n"), listing(""));
    assert_eq!(ir("x[y-z]w"), ir("[-]"));
}

#[test]
fn three_increments_then_output_writes_three() {
    let ops = listing("+++.");
    let out = run(&ops, &[]);
    assert_eq!(out.output, vec![3]);
    assert_eq!(out.tape[0], 3);
    assert_eq!(ops.iter().filter(|op| matches!(op, Op::Add { amt: 1, .. })).count(), 3);
    assert_eq!(ops.iter().filter(|op| matches!(op, Op::Write { .. })).count(), 1);
    let text = ir("+++.");
    let adds: Vec<usize> = text.match_indices(" = add i8 ").map(|(i, _)| i).collect();
    assert_eq!(adds.len(), 3);
    let call = text.find("call i32 @putchar(i32 %\"putchar sign extend\")").unwrap();
    assert!(adds[2] < call);
}

#[test]
fn read_then_write_echoes() {
    let ops = listing(",.");
    assert_eq!(run(&ops, &[65]).output, vec![65]);
    assert_eq!(run(&ops, &[0]).output, vec![0]);
    assert_eq!(run(&ops, &[127]).output, vec![127]);
    let out = run(&ops, &[200]);
    assert_eq!(out.tape[0], 200);
    assert_eq!(out.output, vec![-56]);
    assert_eq!(out.output[0] as u8, 200);
    assert_eq!(run(&ops, &[]).output, vec![-1]);
    assert_eq!(run(&ops, &[]).tape[0], 255);
    assert_eq!(run(&ops, &[321]).output, vec![65]);
    assert_eq!(run(&ops, &[-128]).output, vec![-128]);
    let text = ir(",.");
    let read = text.find("call i32 @getchar()").unwrap();
    let write = text.find("call i32 @putchar(").unwrap();
    assert!(read < write);
}

#[test]
fn clear_loop_counts_down_to_zero_and_falls_through() {
    let ops = listing("+++[-]");
    let out = run(&ops, &[]);
    assert_eq!(out.tape[0], 0);
    assert_eq!(out.visited, vec![0, 1, 2, 1, 2, 1, 2, 1, 3]);
    assert!(out.returned);

    let ops = listing(",[-]");
    let out = run(&ops, &[255]);
    assert_eq!(out.tape[0], 0);
    assert_eq!(out.visited.len(), 2 + 2 * 255 + 1);
    assert_eq!(out.visited[out.visited.len() - 1], 3);
    assert_eq!(out.visited.iter().filter(|b| **b == 3).count(), 1);

    let out = run(&ops, &[0]);
    assert_eq!(out.visited, vec![0, 1, 3]);

    let text = ir("[-]");
    assert!(text.contains(
        "\"while_body 1\":                                   ; preds = %\"while_start 1\"\n  %\"load ptr1\" = load i8*, i8** %ptr, align 8\n  %\"load ptr value2\" = load i8, i8* %\"load ptr1\", align 1\n  %\"add data to ptr\" = add i8 %\"load ptr value2\", -1\n  store i8 %\"add data to ptr\", i8* %\"load ptr1\", align 1\n  br label %\"while_start 1\"\n"
    ));
    assert!(text.contains(
        "\"while_end 1\":                                    ; preds = %\"while_start 1\"\n  %load = load i8*, i8** %data, align 8\n"
    ));
}

#[test]
fn nested_loops_have_their_own_blocks() {
    let ops = listing("[[-]>]");
    let blocks: Vec<Op> =
        ops.iter().filter(|op| matches!(op, Op::Block { .. })).cloned().collect();
    assert_eq!(
        blocks,
        vec![
            Op::Block { id: 0, label: Label { kind: LabelKind::Entry, depth: 0 } },
            Op::Block { id: 1, label: Label { kind: LabelKind::WhileStart, depth: 1 } },
            Op::Block { id: 2, label: Label { kind: LabelKind::WhileBody, depth: 1 } },
            Op::Block { id: 3, label: Label { kind: LabelKind::WhileEnd, depth: 1 } },
            Op::Block { id: 4, label: Label { kind: LabelKind::WhileStart, depth: 2 } },
            Op::Block { id: 5, label: Label { kind: LabelKind::WhileBody, depth: 2 } },
            Op::Block { id: 6, label: Label { kind: LabelKind::WhileEnd, depth: 2 } },
        ]
    );
    let tests: Vec<Op> =
        ops.iter().filter(|op| matches!(op, Op::JumpIf { .. })).cloned().collect();
    assert_eq!(
        tests,
        vec![
            Op::JumpIf { cond: 14, then_block: 2, else_block: 3 },
            Op::JumpIf { cond: 24, then_block: 5, else_block: 6 },
        ]
    );
    assert_eq!(ops.iter().filter(|op| matches!(op, Op::NonZero { .. })).count(), 2);
    let jumps: Vec<Op> = ops.iter().filter(|op| matches!(op, Op::Jump { .. })).cloned().collect();
    assert_eq!(
        jumps,
        vec![
            Op::Jump { target: 1 },
            Op::Jump { target: 4 },
            Op::Jump { target: 4 },
            Op::Jump { target: 1 },
        ]
    );
    // The inner loop is entered from the outer body, and the outer body goes
    // on behind the inner loop.
    assert_eq!(ops[16], Op::Position { block: 2 });
    assert_eq!(ops[20], Op::Jump { target: 4 });
    assert_eq!(ops[32], Op::Position { block: 6 });
    assert_eq!(ops[36], Op::Jump { target: 1 });
    assert_eq!(ops[37], Op::Position { block: 3 });

    let text = ir("[[-]>]");
    assert_eq!(text.matches("icmp ne i8").count(), 2);
    assert_eq!(text.matches("br i1 ").count(), 2);
    assert!(text.contains("\"while_body 1\":                                   ; preds = %\"while_start 1\"\n  br label %\"while_start 2\"\n"));
    assert!(text.contains("\"while_start 2\":                                  ; preds = %\"while_body 2\", %\"while_body 1\"\n"));
    assert!(text.contains("\"while_start 1\":                                  ; preds = %\"while_end 2\", %entry\n"));

    let ops = listing("++>+++<[[-]>]");
    let out = run(&ops, &[]);
    assert_eq!(out.tape[0], 0);
    assert_eq!(out.tape[1], 0);
    assert_eq!(out.cursor, 2);
}

#[test]
fn well_formed_programs_end_with_no_loop_open() {
    for source in ["", "[]", "[[]][]", "+[>[-]<-]", "[[[[]]]]", ",[.,]"] {
        let context = Context::create();
        let mut emitter = Emitter::new(&context).unwrap();
        let mut while_blocks = VecDeque::new();
        assert_eq!(compile_into(&mut emitter, &mut while_blocks, source), Ok(()));
        assert!(while_blocks.is_empty(), "{}", source);
        let opens = source.chars().filter(|c| *c == '[').count();
        let closes = source.chars().filter(|c| *c == ']').count();
        assert_eq!(opens, closes);
        assert_eq!(emitter.block_count(), 1 + 3 * opens);
    }
}

#[test]
fn loops_left_open_stay_on_the_stack() {
    let context = Context::create();
    let mut emitter = Emitter::new(&context).unwrap();
    let mut while_blocks = VecDeque::new();
    assert_eq!(compile_into(&mut emitter, &mut while_blocks, "[[+]["), Ok(()));
    assert_eq!(
        while_blocks,
        VecDeque::from(vec![
            WhileBlock { while_start: 7, while_body: 8, while_end: 9 },
            WhileBlock { while_start: 1, while_body: 2, while_end: 3 },
        ])
    );
    assert_eq!(emitter.current_block(), 8);

    // Nothing reports the open loops: the program is built, with blocks that
    // nothing ends.
    let built = compile(&context, "[[+][").unwrap();
    assert_eq!(built.block_count(), 10);
    assert_eq!(built.ops()[built.ops().len() - 1], Op::Return);
    assert!(built.module().verify().is_err());
}

#[test]
fn compile_into_goes_on_from_the_state_it_is_given() {
    let context = Context::create();
    let mut emitter = Emitter::new(&context).unwrap();
    let mut while_blocks = VecDeque::new();
    assert_eq!(compile_into(&mut emitter, &mut while_blocks, "+["), Ok(()));
    assert_eq!(compile_into(&mut emitter, &mut while_blocks, "-]."), Ok(()));
    assert!(while_blocks.is_empty());
    emitter.finish();
    assert_eq!(emitter.ops().clone(), listing("+[-]."));
}

#[test]
fn unmatched_close_stops_the_compilation() {
    let context = Context::create();
    assert_eq!(compile(&context, "]").err(), Some(CompileError::UnmatchedCloseBracket));
    assert_eq!(compile(&context, "+]+").err(), Some(CompileError::UnmatchedCloseBracket));
    assert_eq!(compile(&context, "[]]").err(), Some(CompileError::UnmatchedCloseBracket));
    assert_eq!(compile(&context, "][").err(), Some(CompileError::UnmatchedCloseBracket));
    assert_eq!(compile(&context, "[-]>[.]]+++[").err(), Some(CompileError::UnmatchedCloseBracket));

    let mut emitter = Emitter::new(&context).unwrap();
    let mut while_blocks = VecDeque::new();
    assert_eq!(
        compile_into(&mut emitter, &mut while_blocks, "+[-]]>>."),
        Err(CompileError::UnmatchedCloseBracket)
    );
    assert!(while_blocks.is_empty());
    let stopped = emitter.ops().clone();
    let stopped_ir = emitter.module().print_to_string().to_string();

    let mut prefix = Emitter::new(&context).unwrap();
    let mut prefix_blocks = VecDeque::new();
    assert_eq!(compile_into(&mut prefix, &mut prefix_blocks, "+[-]"), Ok(()));
    assert_eq!(stopped, prefix.ops().clone());
    assert_eq!(stopped_ir, prefix.module().print_to_string().to_string());
    assert_eq!(stopped_ir.matches("br label").count(), 2);
}

#[test]
fn many_increments_wrap_modulo_256() {
    let plus_257 = "+".repeat(257);
    let a = run(&listing(&plus_257), &[]);
    let b = run(&listing("+"), &[]);
    assert_eq!(a.tape, b.tape);
    assert_eq!(a.tape[0], 1);
    assert_eq!(a.cursor, b.cursor);

    assert_eq!(run(&listing(&"+".repeat(256)), &[]).tape[0], 0);
    assert_eq!(run(&listing("-"), &[]).tape[0], 255);
    assert_eq!(run(&listing("+++--+-"), &[]).tape[0], 1);
    assert_eq!(run(&listing(&"-".repeat(300)), &[]).tape[0], 212);
    let mixed = format!(",{}{}.", "+".repeat(100), "-".repeat(30));
    assert_eq!(run(&listing(&mixed), &[250]).tape[0], 64);
    assert_eq!(ir(&plus_257).matches(" = add i8 ").count(), 257);
}

#[test]
fn move_pairs_leave_the_cursor() {
    for source in ["><", "<>", "+><.", ">><<", "><><<>"] {
        let out = run(&listing(source), &[]);
        assert_eq!(out.cursor, 0, "{}", source);
    }
    assert_eq!(run(&listing(">>>"), &[]).cursor, 3);
    assert_eq!(run(&listing(">>><"), &[]).cursor, 2);
    let out = run(&listing(">+<>+"), &[]);
    assert_eq!(out.tape[0], 0);
    assert_eq!(out.tape[1], 2);
    assert_eq!(out.cursor, 1);
}

#[test]
fn hello_prints() {
    let source = "++++++++[>++++[>++>+++>+++>+<<<<-]>+>+>->>+[<]<-]>>.>---.+++++++..+++.>>.<-.<.+++.------.--------.>>+.>++.";
    let out = run(&listing(source), &[]);
    let printed: Vec<u8> = out.output.iter().map(|c| *c as u8).collect();
    assert_eq!(printed, b"Hello World!\n".to_vec());
}

#[test]
fn every_request_is_an_instruction_of_the_module() {
    let source = "++++++++[>++++[>++>+++>+++>+<<<<-]>+>+>->>+[<]<-]>>.>---.,[.,]<<[-]";
    let ops = listing(source);
    let text = ir(source);
    let count = |wanted: fn(&Op) -> bool| ops.iter().filter(|op| wanted(op)).count();
    assert_eq!(text.matches(" = load i8*, i8** %ptr,").count(), count(|op| matches!(op, Op::Fetch { place: Place::Cursor })));
    assert_eq!(text.matches(" = load i8*, i8** %data,").count(), count(|op| matches!(op, Op::Fetch { place: Place::Base })));
    assert_eq!(text.matches(" = load i8, i8* ").count(), count(|op| matches!(op, Op::Load { .. })));
    assert_eq!(text.matches("  store i8 ").count(), count(|op| matches!(op, Op::Store { .. })));
    assert_eq!(text.matches("  store i8* ").count(), count(|op| matches!(op, Op::Save { .. })));
    assert_eq!(text.matches(" = add i8 ").count(), count(|op| matches!(op, Op::Add { .. })));
    assert_eq!(text.matches(" = ptrtoint i8* ").count(), count(|op| matches!(op, Op::Offset { .. })));
    assert_eq!(text.matches(" = add i64 ").count(), count(|op| matches!(op, Op::Offset { .. })));
    assert_eq!(text.matches(" = inttoptr i64 ").count(), count(|op| matches!(op, Op::Offset { .. })));
    assert_eq!(text.matches(" = sext i8 ").count(), count(|op| matches!(op, Op::Extend { .. })));
    assert_eq!(text.matches(" = trunc i32 ").count(), count(|op| matches!(op, Op::Truncate { .. })));
    assert_eq!(text.matches(" = call i32 @getchar()").count(), count(|op| matches!(op, Op::Read)));
    assert_eq!(text.matches(" = call i32 @putchar(i32 ").count(), count(|op| matches!(op, Op::Write { .. })));
    assert_eq!(text.matches(" = icmp ne i8 ").count(), count(|op| matches!(op, Op::NonZero { .. })));
    assert_eq!(text.matches("  br label ").count(), count(|op| matches!(op, Op::Jump { .. })));
    assert_eq!(text.matches("  br i1 ").count(), count(|op| matches!(op, Op::JumpIf { .. })));
    assert_eq!(text.matches(" = alloca i8*,").count(), count(|op| matches!(op, Op::Reserve { .. })));
    assert_eq!(text.matches(" = call i8* @calloc(i64 30000, i64 1)").count(), count(|op| matches!(op, Op::Allocate { .. })));
    assert_eq!(text.matches("call void @free(i8* ").count(), count(|op| matches!(op, Op::Release { .. })));
    assert_eq!(text.matches("  ret i32 0").count(), count(|op| matches!(op, Op::Return)));
    assert_eq!(text.matches("\":  ").count() + 1, count(|op| matches!(op, Op::Block { .. })));
    assert_eq!(count(|op| matches!(op, Op::Block { .. })), 1 + 3 * source.matches('[').count());
}
