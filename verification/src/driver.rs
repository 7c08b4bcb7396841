//! The program driver: one pass over the source, left to right.
use crate::emitter::closing;
use crate::emitter::lemma_prologue_ready;
use crate::emitter::prologue;
use crate::emitter::Emitter;
use crate::error::CompileError;
use crate::instructions::add_ops;
use crate::instructions::add_ptr_ops;
use crate::instructions::build_add;
use crate::instructions::build_add_ptr;
use crate::instructions::build_get;
use crate::instructions::build_put;
use crate::instructions::build_while_end;
use crate::instructions::build_while_start;
use crate::instructions::close_ops;
use crate::instructions::get_ops;
use crate::instructions::open_ops;
use crate::instructions::put_ops;
use crate::instructions::WhileBlock;
use crate::ir::Listing;
use crate::ir::Op;
use crate::laws::law_stack_depth;
use crate::source::balanced;
use crate::source::closes_matched;
use inkwell::context::Context;
use std::collections::VecDeque;
use vstd::prelude::*;
use vstd::std_specs::iter::IteratorSpec;

verus! {

/// The exit blocks of the open loops.
pub open spec fn exits(loops: Seq<WhileBlock>) -> Set<nat>
    decreases loops.len(),
{
    if loops.len() == 0 {
        Set::empty()
    } else {
        exits(loops.drop_first()).insert(loops[0].while_end as nat)
    }
}

/// The state of a compilation between two characters: what has been
/// requested, and the loops that are open, innermost first.
pub struct Scan {
    pub listing: Listing,
    pub loops: Seq<WhileBlock>,
}

impl Scan {
    /// The open loop at position `i` of the stack has three blocks of its
    /// own: they follow each other, they exist, and none is the entry block.
    pub open spec fn owns_blocks(self, i: int) -> bool {
        &&& 0 < self.loops[i].while_start
        &&& self.loops[i].while_body == self.loops[i].while_start + 1
        &&& self.loops[i].while_end == self.loops[i].while_start + 2
        &&& self.loops[i].while_end < self.listing.blocks
    }

    /// Every open loop has three blocks of its own, and a loop that was
    /// opened later has blocks that were made later.
    pub open spec fn nested(self) -> bool {
        &&& forall|i: int| 0 <= i < self.loops.len() ==> #[trigger] self.owns_blocks(i)
        &&& forall|i: int, j: int|
            0 <= i < j < self.loops.len() ==> (#[trigger] self.loops[j]).while_end < (
            #[trigger] self.loops[i]).while_start
    }

    /// The listing is in order; the open loops are nested; the insertion
    /// point is in a block that has not ended and that is no open loop's
    /// exit; and the blocks that have not ended are that block and the exits
    /// of the open loops, which wait for their `]`.
    pub open spec fn valid(self) -> bool {
        &&& self.listing.well_formed()
        &&& self.nested()
        &&& !exits(self.loops).contains(self.listing.current)
        &&& forall|b: nat|
            b < self.listing.blocks ==> (#[trigger] self.listing.flow().ended.contains(b) <==> b
                != self.listing.current && !exits(self.loops).contains(b))
    }

    /// The state after requests that neither make a block nor move the
    /// insertion point.
    pub open spec fn extend(self, ops: Seq<Op>) -> Scan {
        Scan { listing: self.listing.extend(ops), loops: self.loops }
    }

    /// The state after `[`.
    pub open spec fn opened(self) -> Scan {
        let blocks = self.listing.blocks;
        Scan {
            listing: Listing {
                ops: self.listing.ops + open_ops(
                    self.listing.ops.len(),
                    blocks,
                    self.loops.len(),
                ),
                blocks: blocks + 3,
                current: blocks + 1,
            },
            loops: seq![
                WhileBlock {
                    while_start: blocks as usize,
                    while_body: (blocks + 1) as usize,
                    while_end: (blocks + 2) as usize,
                },
            ] + self.loops,
        }
    }

    /// The state after a `]` that closes the innermost open loop.
    pub open spec fn closed(self) -> Scan
        recommends
            self.loops.len() > 0,
    {
        Scan {
            listing: Listing {
                ops: self.listing.ops + close_ops(self.loops[0]),
                blocks: self.listing.blocks,
                current: self.loops[0].while_end as nat,
            },
            loops: self.loops.drop_first(),
        }
    }

    /// The state after a `,` whose read yields no character: the read was
    /// requested, and nothing after it.
    pub open spec fn stopped_reading(self) -> Scan {
        Scan { listing: self.listing.emit(Op::Read), loops: self.loops }
    }

    /// The state after one character, if every read yields a character;
    /// `None` for a `]` with no loop open.
    pub open spec fn step(self, command: char) -> Option<Scan> {
        let n = self.listing.ops.len();
        if command == '>' {
            Some(self.extend(add_ptr_ops(n, 1)))
        } else if command == '<' {
            Some(self.extend(add_ptr_ops(n, -1i32)))
        } else if command == '+' {
            Some(self.extend(add_ops(n, 1)))
        } else if command == '-' {
            Some(self.extend(add_ops(n, -1i32)))
        } else if command == '.' {
            Some(self.extend(put_ops(n)))
        } else if command == ',' {
            Some(self.extend(get_ops(n)))
        } else if command == '[' {
            Some(self.opened())
        } else if command == ']' {
            if self.loops.len() == 0 {
                None
            } else {
                Some(self.closed())
            }
        } else {
            Some(self)
        }
    }

    /// The state after a whole source, if every read yields a character;
    /// `None` if a `]` is met with no loop open.
    pub open spec fn scan(self, source: Seq<char>) -> Option<Scan>
        decreases source.len(),
    {
        if source.len() == 0 {
            Some(self)
        } else {
            match self.scan(source.drop_last()) {
                Some(before) => before.step(source.last()),
                None => None,
            }
        }
    }
}

/// The state in which the scan of a program begins: set up, tape allocated,
/// no loop open.
pub open spec fn start() -> Scan {
    Scan { listing: prologue(), loops: Seq::empty() }
}

/// The state of a compilation before the character at position `k` of the
/// source.
pub open spec fn state_at(source: Seq<char>, k: int) -> Scan {
    start().scan(source.take(k))->0
}

/// The position in the listing at which the requests for the character at
/// position `k` of the source begin.
pub open spec fn place(source: Seq<char>, k: int) -> int {
    state_at(source, k).listing.ops.len() as int
}

/// The listing that a source is compiled to: what the scan requests, and
/// the requests that end the program.
pub open spec fn finished(source: Seq<char>) -> Listing {
    let scanned = state_at(source, source.len() as int).listing;
    scanned.extend(closing(scanned.ops.len() as int))
}

/// The requests that a source is compiled to.
pub open spec fn compiled(source: Seq<char>) -> Seq<Op> {
    finished(source).ops
}

/// The source is compiled without a fault, and the listing fits in memory.
pub open spec fn compiles(source: Seq<char>) -> bool {
    &&& start().scan(source) is Some
    &&& compiled(source).len() <= usize::MAX
    &&& state_at(source, source.len() as int).listing.blocks <= usize::MAX
}

/// The state in which the scan of a program begins is valid.
pub proof fn lemma_prologue_valid()
    ensures
        start().valid(),
{
    lemma_prologue_ready();
}

/// The exits of loops whose blocks all lie below a bound lie below it.
pub proof fn lemma_exits_below(loops: Seq<WhileBlock>, bound: nat)
    requires
        forall|i: int| 0 <= i < loops.len() ==> (#[trigger] loops[i]).while_end < bound,
    ensures
        forall|b: nat| #[trigger] exits(loops).contains(b) ==> b < bound,
    decreases loops.len(),
{
    if loops.len() > 0 {
        let rest = loops.drop_first();
        assert forall|i: int| 0 <= i < rest.len() implies (#[trigger] rest[i]).while_end
            < bound by {
            assert(rest[i] == loops[i + 1]);
        }
        lemma_exits_below(rest, bound);
        assert(loops[0].while_end < bound);
        assert forall|b: nat| #[trigger] exits(loops).contains(b) implies b < bound by {
            assert(b == loops[0].while_end || exits(rest).contains(b));
        }
    }
}

/// A valid state stays valid while the stack of loops, the blocks and the
/// insertion point stay as they are and the listing stays in order.
pub proof fn lemma_valid_carries(before: Scan, after: Scan)
    requires
        before.valid(),
        after.loops == before.loops,
        after.listing.well_formed(),
        after.listing.blocks == before.listing.blocks,
        after.listing.current == before.listing.current,
        after.listing.flow().ended == before.listing.flow().ended,
    ensures
        after.valid(),
{
    assert forall|i: int| 0 <= i < after.loops.len() implies #[trigger] after.owns_blocks(i) by {
        assert(before.owns_blocks(i));
    }
}

/// A valid state is valid after `[`, if the listing after it is in order,
/// fits in memory, and has ended the block the `[` was met in and the new
/// loop's test.
pub proof fn lemma_valid_opened(before: Scan)
    requires
        before.valid(),
        before.opened().listing.well_formed(),
        before.opened().listing.blocks <= usize::MAX,
        before.opened().listing.flow().ended == before.listing.flow().ended.insert(
            before.listing.current,
        ).insert(before.listing.blocks),
    ensures
        before.opened().valid(),
{
    let after = before.opened();
    let made = before.listing.blocks;
    assert(after.loops.drop_first() == before.loops);
    assert forall|i: int| 0 <= i < before.loops.len() implies (#[trigger] before.loops[i]).while_end
        < made by {
        assert(before.owns_blocks(i));
    }
    lemma_exits_below(before.loops, made);
    assert forall|i: int| 0 <= i < after.loops.len() implies #[trigger] after.owns_blocks(i) by {
        if i > 0 {
            assert(after.loops[i] == before.loops[i - 1]);
            assert(before.owns_blocks(i - 1));
        }
    }
    assert forall|i: int, j: int| 0 <= i < j < after.loops.len() implies (
    #[trigger] after.loops[j]).while_end < (#[trigger] after.loops[i]).while_start by {
        assert(after.loops[j] == before.loops[j - 1]);
        assert(before.owns_blocks(j - 1));
        if i > 0 {
            assert(after.loops[i] == before.loops[i - 1]);
        }
    }
    assert forall|b: nat| b < after.listing.blocks implies (
    #[trigger] after.listing.flow().ended.contains(b) <==> b != after.listing.current && !exits(
        after.loops,
    ).contains(b)) by {
        if b < made {
            assert(before.listing.flow().ended.contains(b) <==> b != before.listing.current
                && !exits(before.loops).contains(b));
        }
    }
}

/// A valid state with a loop open is valid after `]`, if the listing after
/// it is in order and has ended the block the `]` was met in.
pub proof fn lemma_valid_closed(before: Scan)
    requires
        before.valid(),
        before.loops.len() > 0,
        before.closed().listing.well_formed(),
        before.closed().listing.flow().ended == before.listing.flow().ended.insert(
            before.listing.current,
        ),
    ensures
        before.closed().valid(),
{
    let after = before.closed();
    let exit = before.loops[0].while_end as nat;
    assert(before.owns_blocks(0));
    assert forall|i: int| 0 <= i < after.loops.len() implies (#[trigger] after.loops[i]).while_end
        < exit by {
        assert(after.loops[i] == before.loops[i + 1]);
    }
    lemma_exits_below(after.loops, exit);
    assert forall|i: int| 0 <= i < after.loops.len() implies #[trigger] after.owns_blocks(i) by {
        assert(after.loops[i] == before.loops[i + 1]);
        assert(before.owns_blocks(i + 1));
    }
    assert forall|i: int, j: int| 0 <= i < j < after.loops.len() implies (
    #[trigger] after.loops[j]).while_end < (#[trigger] after.loops[i]).while_start by {
        assert(after.loops[j] == before.loops[j + 1]);
        assert(after.loops[i] == before.loops[i + 1]);
    }
    assert forall|b: nat| b < after.listing.blocks implies (
    #[trigger] after.listing.flow().ended.contains(b) <==> b != after.listing.current && !exits(
        after.loops,
    ).contains(b)) by {
        assert(before.listing.flow().ended.contains(b) <==> b != before.listing.current && !exits(
            before.loops,
        ).contains(b));
    }
}

/// Once a prefix has met an unmatched `]`, so has the whole source.
pub proof fn lemma_scan_none_stays(from: Scan, source: Seq<char>, k: int)
    requires
        0 <= k <= source.len(),
        from.scan(source.take(k)) is None,
    ensures
        from.scan(source) is None,
    decreases source.len() - k,
{
    if k < source.len() {
        assert(source.take(k + 1).drop_last() == source.take(k));
        lemma_scan_none_stays(from, source, k + 1);
    } else {
        assert(source.take(k) == source);
    }
}

/// Compiles `program`, one character after the other, into `emitter`,
/// with `while_blocks` as the stack of open loops. The first failure ends
/// the compilation: what was requested up to it stays requested, and nothing
/// is requested after it.
pub fn compile_into<'ctx>(
    emitter: &mut Emitter<'ctx>,
    while_blocks: &mut VecDeque<WhileBlock>,
    program: &str,
) -> (done: Result<(), CompileError>)
    requires
        (Scan { listing: old(emitter)@, loops: old(while_blocks)@ }).valid(),
    ensures
        ({
            let from = Scan { listing: old(emitter)@, loops: old(while_blocks)@ };
            let to = Scan { listing: final(emitter)@, loops: final(while_blocks)@ };
            &&& to.valid()
            &&& match done {
                Ok(()) => from.scan(program@) == Some(to),
                Err(CompileError::UnmatchedCloseBracket) => exists|k: int|
                    {
                        &&& 0 <= k < program@.len()
                        &&& program@[k] == ']'
                        &&& #[trigger] from.scan(program@.take(k)) == Some(to)
                        &&& to.loops.len() == 0
                    } && from.scan(program@) is None,
                Err(CompileError::IoBridge) => exists|k: int|
                    {
                        &&& 0 <= k < program@.len()
                        &&& program@[k] == ','
                        &&& #[trigger] from.scan(program@.take(k)) matches Some(before)
                        &&& to == before.stopped_reading()
                    },
                Err(CompileError::AllocBridge) => false,
            }
            &&& from.scan(program@) is None ==> done is Err
            &&& !program@.contains(',') ==> (done is Ok <==> from.scan(program@) is Some)
        }),
{
    broadcast use vstd::string::group_string_axioms;

    let ghost from = Scan { listing: emitter@, loops: while_blocks@ };
    let mut chars = program.chars();
    let ghost mut k: int = 0;
    assert(program@.take(0) =~= Seq::<char>::empty());
    assert(program@.skip(0) =~= program@);
    loop
        invariant
            from == (Scan { listing: old(emitter)@, loops: old(while_blocks)@ }),
            0 <= k <= program@.len(),
            chars.remaining() == program@.skip(k),
            from.scan(program@.take(k)) == Some(Scan { listing: emitter@, loops: while_blocks@ }),
            (Scan { listing: emitter@, loops: while_blocks@ }).valid(),
        decreases program@.len() - k,
    {
        let ghost before = Scan { listing: emitter@, loops: while_blocks@ };
        match chars.next() {
            None => {
                assert(program@.take(k) == program@);
                return Ok(());
            },
            Some(command) => {
                assert(command == program@[k]);
                assert(program@.take(k + 1).drop_last() == program@.take(k));
                assert(program@.take(k + 1).last() == command);
                assert(program@.skip(k).drop_first() == program@.skip(k + 1));
                assert(emitter@.ready());
                if command == '>' {
                    build_add_ptr(emitter, 1);
                } else if command == '<' {
                    build_add_ptr(emitter, -1);
                } else if command == '+' {
                    build_add(emitter, 1);
                } else if command == '-' {
                    build_add(emitter, -1);
                } else if command == '.' {
                    build_put(emitter);
                } else if command == ',' {
                    match build_get(emitter) {
                        Ok(()) => {},
                        Err(e) => {
                            assert(program@.contains(','));
                            proof {
                                lemma_valid_carries(
                                    before,
                                    Scan { listing: emitter@, loops: while_blocks@ },
                                );
                            }
                            return Err(e);
                        },
                    }
                } else if command == '[' {
                    build_while_start(emitter, while_blocks);
                    proof {
                        emitter.lemma_bounded();
                        lemma_valid_opened(before);
                    }
                } else if command == ']' {
                    assert(before.loops.len() > 0 ==> before.owns_blocks(0));
                    match build_while_end(emitter, while_blocks) {
                        Ok(()) => {
                            proof {
                                lemma_valid_closed(before);
                            }
                        },
                        Err(e) => {
                            proof {
                                lemma_scan_none_stays(from, program@, k + 1);
                            }
                            return Err(e);
                        },
                    }
                }
                proof {
                    if command != '[' && command != ']' {
                        lemma_valid_carries(
                            before,
                            Scan { listing: emitter@, loops: while_blocks@ },
                        );
                    }
                    k = k + 1;
                }
            },
        }
    }
}

/// Compiles a whole program into a new module of `context`: the tape is
/// allocated at entry, the source is compiled, and at exit the tape is
/// released and zero returned. A `]` that closes no loop is the only fault of
/// the source that is reported: loops that the source leaves open are not,
/// and their blocks stay without an end.
pub fn compile<'ctx>(context: &'ctx Context, program: &str) -> (made: Result<
    Emitter<'ctx>,
    CompileError,
>)
    ensures
        match made {
            Ok(emitter) => {
                &&& closes_matched(program@)
                &&& compiles(program@)
                &&& emitter@ == finished(program@)
                &&& emitter@.well_formed()
                &&& balanced(program@) ==> emitter@.complete()
            },
            Err(CompileError::UnmatchedCloseBracket) => !closes_matched(program@),
            Err(CompileError::IoBridge) => program@.contains(','),
            Err(CompileError::AllocBridge) => true,
        },
        !closes_matched(program@) ==> made is Err,
{
    let mut emitter = match Emitter::new(context) {
        Ok(emitter) => emitter,
        Err(e) => {
            return Err(e);
        },
    };
    let mut while_blocks: VecDeque<WhileBlock> = VecDeque::new();
    proof {
        law_stack_depth(start(), program@);
        lemma_prologue_valid();
    }
    match compile_into(&mut emitter, &mut while_blocks, program) {
        Ok(()) => {
            assert(program@.take(program@.len() as int) == program@);
            emitter.finish();
            proof {
                emitter.lemma_bounded();
            }
            Ok(emitter)
        },
        Err(e) => Err(e),
    }
}

} // verus!
