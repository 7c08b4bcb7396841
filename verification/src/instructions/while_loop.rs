use crate::emitter::Emitter;
use crate::error::CompileError;
use crate::ir::Flow;
use crate::ir::Label;
use crate::ir::LabelKind;
use crate::ir::Listing;
use crate::ir::Op;
use crate::ir::Place;
use std::collections::VecDeque;
use vstd::prelude::*;

verus! {

/// One open loop: the numbers of its three basic blocks.
#[derive(Clone, Copy, Debug, PartialEq, Eq)]
pub struct WhileBlock {
    /// Tests the current cell; entered from before the loop and from the end
    /// of its body.
    pub while_start: usize,
    /// Holds what stands between the brackets.
    pub while_body: usize,
    /// Follows the loop.
    pub while_end: usize,
}

/// The depth a loop is tagged with when `open` loops are open around it.
pub open spec fn loop_depth(open: nat) -> usize {
    if open < usize::MAX {
        (open + 1) as usize
    } else {
        usize::MAX
    }
}

/// What `build_while_start` requests when `n` requests were made and
/// `blocks` blocks exist before, inside `open` open loops: three new blocks,
/// a branch into the test, the test of the current cell with its two-way
/// branch, and the insertion point moved into the body.
pub open spec fn open_ops(n: nat, blocks: nat, open: nat) -> Seq<Op> {
    let depth = loop_depth(open);
    seq![
        Op::Block { id: blocks as usize, label: Label { kind: LabelKind::WhileStart, depth } },
        Op::Block { id: (blocks + 1) as usize, label: Label { kind: LabelKind::WhileBody, depth } },
        Op::Block { id: (blocks + 2) as usize, label: Label { kind: LabelKind::WhileEnd, depth } },
        Op::Jump { target: blocks as usize },
        Op::Position { block: blocks as usize },
        Op::Fetch { place: Place::Cursor },
        Op::Load { addr: (n + 5) as usize },
        Op::NonZero { val: (n + 6) as usize },
        Op::JumpIf {
            cond: (n + 7) as usize,
            then_block: (blocks + 1) as usize,
            else_block: (blocks + 2) as usize,
        },
        Op::Position { block: (blocks + 1) as usize },
    ]
}

/// What `build_while_end` requests for the loop `top`: a branch back to its
/// test, and the insertion point moved behind the loop.
pub open spec fn close_ops(top: WhileBlock) -> Seq<Op> {
    seq![Op::Jump { target: top.while_start }, Op::Position { block: top.while_end }]
}

/// Compiles `[`: opens a loop. The new loop becomes the front of
/// `while_blocks`.
pub fn build_while_start<'ctx>(
    emitter: &mut Emitter<'ctx>,
    while_blocks: &mut VecDeque<WhileBlock>,
)
    requires
        old(emitter)@.ready(),
    ensures
        final(emitter)@.ready(),
        final(emitter)@.flow() == (Flow {
            blocks: old(emitter)@.blocks + 3,
            current: old(emitter)@.blocks + 1,
            ended: old(emitter)@.flow().ended.insert(old(emitter)@.current).insert(
                old(emitter)@.blocks,
            ),
            sound: true,
        }),
        final(emitter)@ == (Listing {
            ops: old(emitter)@.ops + open_ops(
                old(emitter)@.ops.len(),
                old(emitter)@.blocks,
                old(while_blocks)@.len(),
            ),
            blocks: old(emitter)@.blocks + 3,
            current: old(emitter)@.blocks + 1,
        }),
        final(while_blocks)@ == seq![
            WhileBlock {
                while_start: old(emitter)@.blocks as usize,
                while_body: (old(emitter)@.blocks + 1) as usize,
                while_end: (old(emitter)@.blocks + 2) as usize,
            },
        ] + old(while_blocks)@,
{
    let open = while_blocks.len();
    let depth = if open < usize::MAX {
        open + 1
    } else {
        open
    };
    let while_block = WhileBlock {
        while_start: emitter.block(Label { kind: LabelKind::WhileStart, depth }),
        while_body: emitter.block(Label { kind: LabelKind::WhileBody, depth }),
        while_end: emitter.block(Label { kind: LabelKind::WhileEnd, depth }),
    };
    while_blocks.push_front(while_block);

    emitter.jump(while_block.while_start);
    emitter.position(while_block.while_start);

    let address = emitter.fetch(Place::Cursor, "load ptr");
    let cell = emitter.load(&address, "load ptr value");
    let flag = emitter.nonzero(&cell, "compare value at pointer to zero");

    emitter.jump_if(&flag, while_block.while_body, while_block.while_end);
    emitter.position(while_block.while_body);
    assert(emitter@.ops =~= old(emitter)@.ops + open_ops(
        old(emitter)@.ops.len(),
        old(emitter)@.blocks,
        old(while_blocks)@.len(),
    ));
}

/// Compiles `]`: closes the loop at the front of `while_blocks`. With no
/// loop open it fails with `UnmatchedCloseBracket` and requests nothing.
pub fn build_while_end<'ctx>(
    emitter: &mut Emitter<'ctx>,
    while_blocks: &mut VecDeque<WhileBlock>,
) -> (done: Result<(), CompileError>)
    requires
        old(emitter)@.ready(),
        old(while_blocks)@.len() > 0 ==> {
            &&& old(while_blocks)@[0].while_start < old(emitter)@.blocks
            &&& old(while_blocks)@[0].while_end < old(emitter)@.blocks
        },
    ensures
        final(emitter)@.well_formed(),
        old(while_blocks)@.len() == 0 ==> {
            &&& done == Err::<(), CompileError>(CompileError::UnmatchedCloseBracket)
            &&& final(emitter)@ == old(emitter)@
            &&& final(while_blocks)@ == old(while_blocks)@
        },
        old(while_blocks)@.len() > 0 ==> {
            &&& done is Ok
            &&& final(emitter)@.flow() == (Flow {
                current: old(while_blocks)@[0].while_end as nat,
                ended: old(emitter)@.flow().ended.insert(old(emitter)@.current),
                ..old(emitter)@.flow()
            })
            &&& final(emitter)@ == (Listing {
                ops: old(emitter)@.ops + close_ops(old(while_blocks)@[0]),
                blocks: old(emitter)@.blocks,
                current: old(while_blocks)@[0].while_end as nat,
            })
            &&& final(while_blocks)@ == old(while_blocks)@.drop_first()
        },
{
    match while_blocks.pop_front() {
        Some(while_block) => {
            emitter.jump(while_block.while_start);
            emitter.position(while_block.while_end);
            assert(emitter@.ops =~= old(emitter)@.ops + close_ops(while_block));
            Ok(())
        },
        None => Err(CompileError::UnmatchedCloseBracket),
    }
}

} // verus!
