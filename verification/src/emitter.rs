//! The emitter: the one mutable builder a compilation appends to.
//!
//! An `Emitter` owns the LLVM module being built and the handles into it, and
//! keeps a listing of every request it has made of the backend. Each method
//! below makes one request and records it, so the listing is what the
//! contracts of the compilation speak of.
use crate::backend;
use crate::backend::Address;
use crate::backend::Allocator;
use crate::backend::Insertion;
use crate::backend::Reader;
use crate::backend::Slot;
use crate::backend::Writer;
use crate::error::CompileError;
use crate::ir::lemma_emit_well_formed;
use crate::ir::lemma_flow_push;
use crate::ir::Flow;
use crate::ir::Kind;
use crate::ir::Label;
use crate::ir::LabelKind;
use crate::ir::Listing;
use crate::ir::Op;
use crate::ir::Place;
use inkwell::basic_block::BasicBlock;
use inkwell::context::Context;
use inkwell::module::Module;
use inkwell::values::FunctionValue;
use inkwell::values::IntValue;
use vstd::prelude::*;

verus! {

/// The number of cells of the tape.
pub const TAPE_CELLS: u64 = 30000;

/// A value that some request produced, together with the position of that
/// request in the listing.
pub struct Value<T> {
    id: usize,
    raw: T,
}

impl<T> Value<T> {
    /// The position in the listing of the request that produced this value.
    pub closed spec fn id(&self) -> usize {
        self.id
    }
}

/// The builder of one program.
pub struct Emitter<'ctx> {
    context: &'ctx Context,
    module: Module<'ctx>,
    at: Insertion<'ctx>,
    function: FunctionValue<'ctx>,
    allocator: Allocator<'ctx>,
    reader: Reader<'ctx>,
    writer: Writer<'ctx>,
    base: Slot<'ctx>,
    cursor: Slot<'ctx>,
    blocks: Vec<BasicBlock<'ctx>>,
    current: usize,
    ops: Vec<Op>,
}

impl<'ctx> View for Emitter<'ctx> {
    type V = Listing;

    closed spec fn view(&self) -> Listing {
        Listing { ops: self.ops@, blocks: self.blocks@.len(), current: self.current as nat }
    }
}

/// The requests that set a program up: the entry block and the two slots.
pub open spec fn opening() -> Listing {
    Listing {
        ops: seq![
            Op::Block { id: 0, label: Label { kind: LabelKind::Entry, depth: 0 } },
            Op::Position { block: 0 },
            Op::Reserve { place: Place::Base },
            Op::Reserve { place: Place::Cursor },
        ],
        blocks: 1,
        current: 0,
    }
}

/// The requests that store the tape's address: both slots start at its
/// first cell. `tape` is the position of the allocation in the listing.
pub open spec fn installing(tape: usize) -> Seq<Op> {
    seq![Op::Save { place: Place::Base, val: tape }, Op::Save { place: Place::Cursor, val: tape }]
}

/// The requests that end a program, made when `n` others were made before:
/// release the tape and return zero.
pub open spec fn closing(n: int) -> Seq<Op> {
    seq![Op::Fetch { place: Place::Base }, Op::Release { addr: n as usize }, Op::Return]
}

/// The listing of a program that is ready for its first instruction.
pub open spec fn prologue() -> Listing {
    opening().emit(Op::Allocate { cells: TAPE_CELLS }).extend(installing(4))
}

/// The requests that set a program up are in order, and leave the entry
/// block unended.
pub proof fn lemma_opening_well_formed()
    ensures
        opening().ready(),
        opening().flow().ended == Set::<nat>::empty(),
{
    let listing = opening();
    assert forall|i: int| 0 <= i < listing.ops.len() implies #[trigger] listing.fits(i) by {
        assert(i == 0 || i == 1 || i == 2 || i == 3);
    }
    let ops = listing.ops;
    let none = Seq::<Op>::empty();
    assert(ops == none.push(ops[0]).push(ops[1]).push(ops[2]).push(ops[3]));
    lemma_flow_push(none, ops[0]);
    lemma_flow_push(none.push(ops[0]), ops[1]);
    lemma_flow_push(none.push(ops[0]).push(ops[1]), ops[2]);
    lemma_flow_push(none.push(ops[0]).push(ops[1]).push(ops[2]), ops[3]);
}

/// The listing of a program that is ready for its first instruction is in
/// order, and leaves the entry block unended.
pub proof fn lemma_prologue_ready()
    ensures
        prologue().ready(),
        prologue().flow().ended == Set::<nat>::empty(),
{
    lemma_opening_well_formed();
    let allocated = opening().emit(Op::Allocate { cells: TAPE_CELLS });
    lemma_emit_well_formed(opening(), Op::Allocate { cells: TAPE_CELLS });
    let first = Op::Save { place: Place::Base, val: 4 };
    let second = Op::Save { place: Place::Cursor, val: 4 };
    lemma_emit_well_formed(allocated, first);
    lemma_emit_well_formed(allocated.emit(first), second);
    assert(prologue().ops == allocated.emit(first).emit(second).ops);
}

impl<'ctx> Emitter<'ctx> {
    /// A new module with the runtime declared, an empty entry block and the
    /// two slots reserved. The tape is not allocated yet.
    pub fn open(context: &'ctx Context) -> (emitter: Self)
        ensures
            emitter@ == opening(),
            emitter@.ready(),
    {
        let module = backend::create_module(context, "brainfuck_rust");
        let allocator = backend::declare_allocator(&module, context, "calloc");
        let reader = backend::declare_reader(&module, context, "getchar");
        let writer = backend::declare_writer(&module, context, "putchar");
        let function = backend::declare_entry(&module, context, "main");
        let label = Label { kind: LabelKind::Entry, depth: 0 };
        let name = label.name();
        let entry = backend::append_block(context, &function, name.as_str());
        let at = backend::insertion_at(context, &entry);
        let base = backend::reserve_slot(&at, context, "data");
        let cursor = backend::reserve_slot(&at, context, "ptr");
        let mut blocks = Vec::new();
        blocks.push(entry);
        let mut ops = Vec::new();
        ops.push(Op::Block { id: 0, label });
        ops.push(Op::Position { block: 0 });
        ops.push(Op::Reserve { place: Place::Base });
        ops.push(Op::Reserve { place: Place::Cursor });
        let emitter = Emitter {
            context,
            module,
            at,
            function,
            allocator,
            reader,
            writer,
            base,
            cursor,
            blocks,
            current: 0,
            ops,
        };
        assert(emitter@.ops =~= opening().ops);
        proof {
            lemma_opening_well_formed();
        }
        emitter
    }

    /// A program that is ready for its first instruction: set up as by
    /// `open`, with the tape allocated and both slots pointing at its first
    /// cell. Fails only if the backend yields no address for the tape.
    pub fn new(context: &'ctx Context) -> (made: Result<Self, CompileError>)
        ensures
            match made {
                Ok(emitter) => emitter@ == prologue() && emitter@.ready(),
                Err(e) => e == CompileError::AllocBridge,
            },
    {
        let mut emitter = Emitter::open(context);
        let tape = emitter.allocate(TAPE_CELLS, "calloc_call");
        match install_tape(&mut emitter, tape) {
            Ok(()) => {
                assert(emitter@.ops =~= prologue().ops);
                Ok(emitter)
            },
            Err(e) => Err(e),
        }
    }

    /// A listing is held in memory: its lengths are machine numbers.
    pub proof fn lemma_bounded(&self)
        ensures
            self@.ops.len() <= usize::MAX,
            self@.blocks <= usize::MAX,
    {
        assert(self.ops.len() == self.ops@.len());
        assert(self.blocks.len() == self.blocks@.len());
    }

    /// The module that is being built.
    pub fn module(&self) -> (module: &Module<'ctx>)
        ensures
            *module == self.built(),
    {
        &self.module
    }

    /// The module that this emitter holds and builds.
    pub closed spec fn built(&self) -> Module<'ctx> {
        self.module
    }

    /// The requests made so far, oldest first.
    pub fn ops(&self) -> (ops: &Vec<Op>)
        ensures
            ops@ == self@.ops,
    {
        &self.ops
    }

    /// How many basic blocks exist.
    pub fn block_count(&self) -> (n: usize)
        ensures
            n == self@.blocks,
    {
        self.blocks.len()
    }

    /// The block that new instructions are appended to.
    pub fn current_block(&self) -> (block: usize)
        ensures
            block == self@.current,
    {
        self.current
    }

    /// Appends a new basic block to the function and yields its number.
    pub(crate) fn block(&mut self, label: Label) -> (id: usize)
        requires
            old(self)@.well_formed(),
        ensures
            id == old(self)@.blocks,
            final(self)@ == old(self)@.emit(Op::Block { id, label }),
            final(self)@.well_formed(),
            final(self)@.flow() == old(self)@.flow().step(Op::Block { id, label }),
    {
        let id = self.blocks.len();
        let name = label.name();
        let block = backend::append_block(self.context, &self.function, name.as_str());
        self.blocks.push(block);
        proof {
            lemma_emit_well_formed(old(self)@, Op::Block { id, label });
        }
        self.ops.push(Op::Block { id, label });
        id
    }

    /// Moves the insertion point to the end of `block`.
    pub(crate) fn position(&mut self, block: usize)
        requires
            old(self)@.well_formed(),
            block < old(self)@.blocks,
        ensures
            final(self)@ == old(self)@.emit(Op::Position { block }),
            final(self)@.well_formed(),
            final(self)@.flow() == old(self)@.flow().step(Op::Position { block }),
    {
        backend::position_at_end(&self.at, &self.blocks[block]);
        self.current = block;
        proof {
            lemma_emit_well_formed(old(self)@, Op::Position { block });
        }
        self.ops.push(Op::Position { block });
    }

    /// Calls the allocator for `cells` zeroed bytes.
    pub(crate) fn allocate(&mut self, cells: u64, name: &str) -> (tape: Option<
        Value<Address<'ctx>>,
    >)
        requires
            old(self)@.ready(),
        ensures
            final(self)@ == old(self)@.emit(Op::Allocate { cells }),
            tape matches Some(v) ==> v.id() == old(self)@.ops.len(),
            final(self)@.well_formed(),
            final(self)@.flow() == old(self)@.flow().step(Op::Allocate { cells }),
    {
        let id = self.ops.len();
        let made = backend::call_allocator(&self.at, self.context, &self.allocator, cells, 1, name);
        proof {
            lemma_emit_well_formed(self@, Op::Allocate { cells });
        }
        self.ops.push(Op::Allocate { cells });
        match made {
            Some(raw) => Some(Value { id, raw }),
            None => None,
        }
    }

    /// Stores an address into a slot.
    pub(crate) fn save(&mut self, place: Place, address: &Value<Address<'ctx>>)
        requires
            old(self)@.ready(),
            old(self)@.has(address.id(), Kind::Address),
        ensures
            final(self)@ == old(self)@.emit(Op::Save { place, val: address.id() }),
            final(self)@.well_formed(),
            final(self)@.flow() == old(self)@.flow().step(Op::Save { place, val: address.id() }),
    {
        match place {
            Place::Base => backend::save(&self.at, &self.base, &address.raw),
            Place::Cursor => backend::save(&self.at, &self.cursor, &address.raw),
        }
        proof {
            lemma_emit_well_formed(self@, Op::Save { place, val: address.id });
        }
        self.ops.push(Op::Save { place, val: address.id });
    }

    /// Loads the address that a slot holds.
    pub(crate) fn fetch(&mut self, place: Place, name: &str) -> (v: Value<Address<'ctx>>)
        requires
            old(self)@.ready(),
        ensures
            final(self)@ == old(self)@.emit(Op::Fetch { place }),
            v.id() == old(self)@.ops.len(),
            final(self)@.well_formed(),
            final(self)@.flow() == old(self)@.flow().step(Op::Fetch { place }),
    {
        let id = self.ops.len();
        let raw = match place {
            Place::Base => backend::fetch(&self.at, &self.base, name),
            Place::Cursor => backend::fetch(&self.at, &self.cursor, name),
        };
        proof {
            lemma_emit_well_formed(self@, Op::Fetch { place });
        }
        self.ops.push(Op::Fetch { place });
        Value { id, raw }
    }

    /// Loads the byte at an address.
    pub(crate) fn load(&mut self, address: &Value<Address<'ctx>>, name: &str) -> (v: Value<
        IntValue<'ctx>,
    >)
        requires
            old(self)@.ready(),
            old(self)@.has(address.id(), Kind::Address),
        ensures
            final(self)@ == old(self)@.emit(Op::Load { addr: address.id() }),
            v.id() == old(self)@.ops.len(),
            final(self)@.well_formed(),
            final(self)@.flow() == old(self)@.flow().step(Op::Load { addr: address.id() }),
    {
        let id = self.ops.len();
        let raw = backend::load(&self.at, &address.raw, name);
        proof {
            lemma_emit_well_formed(self@, Op::Load { addr: address.id });
        }
        self.ops.push(Op::Load { addr: address.id });
        Value { id, raw }
    }

    /// Stores a byte at an address.
    pub(crate) fn store(&mut self, address: &Value<Address<'ctx>>, value: &Value<IntValue<'ctx>>)
        requires
            old(self)@.ready(),
            old(self)@.has(address.id(), Kind::Address),
            old(self)@.has(value.id(), Kind::Byte),
        ensures
            final(self)@ == old(self)@.emit(Op::Store { addr: address.id(), val: value.id() }),
            final(self)@.well_formed(),
            final(self)@.flow() == old(self)@.flow().step(
                Op::Store { addr: address.id(), val: value.id() },
            ),
    {
        backend::store(&self.at, &address.raw, &value.raw);
        proof {
            lemma_emit_well_formed(self@, Op::Store { addr: address.id, val: value.id });
        }
        self.ops.push(Op::Store { addr: address.id, val: value.id });
    }

    /// Adds the constant `amt` to a byte, wrapping.
    pub(crate) fn add_constant(
        &mut self,
        value: &Value<IntValue<'ctx>>,
        amt: i32,
        name: &str,
    ) -> (v: Value<IntValue<'ctx>>)
        requires
            old(self)@.ready(),
            old(self)@.has(value.id(), Kind::Byte),
        ensures
            final(self)@ == old(self)@.emit(Op::Add { lhs: value.id(), amt }),
            v.id() == old(self)@.ops.len(),
            final(self)@.well_formed(),
            final(self)@.flow() == old(self)@.flow().step(Op::Add { lhs: value.id(), amt }),
    {
        let id = self.ops.len();
        let raw = backend::add_constant(&self.at, &value.raw, amt, name);
        proof {
            lemma_emit_well_formed(self@, Op::Add { lhs: value.id, amt });
        }
        self.ops.push(Op::Add { lhs: value.id, amt });
        Value { id, raw }
    }

    /// Offsets an address by `amt` cells. The address is taken as a number,
    /// the offset is added, and the sum is taken as an address again.
    pub(crate) fn offset(&mut self, address: &Value<Address<'ctx>>, amt: i32, name: &str) -> (v:
        Value<Address<'ctx>>)
        requires
            old(self)@.ready(),
            old(self)@.has(address.id(), Kind::Address),
        ensures
            final(self)@ == old(self)@.emit(Op::Offset { base: address.id(), amt }),
            v.id() == old(self)@.ops.len(),
            final(self)@.well_formed(),
            final(self)@.flow() == old(self)@.flow().step(Op::Offset { base: address.id(), amt }),
    {
        let id = self.ops.len();
        let number = backend::address_to_long(&self.at, self.context, &address.raw, name);
        let sum = backend::add_constant(&self.at, &number, amt, name);
        let raw = backend::long_to_address(&self.at, self.context, &sum, name);
        proof {
            lemma_emit_well_formed(self@, Op::Offset { base: address.id, amt });
        }
        self.ops.push(Op::Offset { base: address.id, amt });
        Value { id, raw }
    }

    /// Sign-extends a byte to a 32-bit word.
    pub(crate) fn extend(&mut self, value: &Value<IntValue<'ctx>>, name: &str) -> (v: Value<
        IntValue<'ctx>,
    >)
        requires
            old(self)@.ready(),
            old(self)@.has(value.id(), Kind::Byte),
        ensures
            final(self)@ == old(self)@.emit(Op::Extend { src: value.id() }),
            v.id() == old(self)@.ops.len(),
            final(self)@.well_formed(),
            final(self)@.flow() == old(self)@.flow().step(Op::Extend { src: value.id() }),
    {
        let id = self.ops.len();
        let raw = backend::sign_extend(&self.at, self.context, &value.raw, name);
        proof {
            lemma_emit_well_formed(self@, Op::Extend { src: value.id });
        }
        self.ops.push(Op::Extend { src: value.id });
        Value { id, raw }
    }

    /// Truncates a 32-bit word to its low byte.
    pub(crate) fn truncate(&mut self, value: &Value<IntValue<'ctx>>, name: &str) -> (v: Value<
        IntValue<'ctx>,
    >)
        requires
            old(self)@.ready(),
            old(self)@.has(value.id(), Kind::Word),
        ensures
            final(self)@ == old(self)@.emit(Op::Truncate { src: value.id() }),
            v.id() == old(self)@.ops.len(),
            final(self)@.well_formed(),
            final(self)@.flow() == old(self)@.flow().step(Op::Truncate { src: value.id() }),
    {
        let id = self.ops.len();
        let raw = backend::truncate(&self.at, self.context, &value.raw, name);
        proof {
            lemma_emit_well_formed(self@, Op::Truncate { src: value.id });
        }
        self.ops.push(Op::Truncate { src: value.id });
        Value { id, raw }
    }

    /// Calls the runtime's "read one character". `None` if the call
    /// produced no value; the call is made and recorded either way.
    pub(crate) fn read(&mut self, name: &str) -> (word: Option<Value<IntValue<'ctx>>>)
        requires
            old(self)@.ready(),
        ensures
            final(self)@ == old(self)@.emit(Op::Read),
            word matches Some(v) ==> v.id() == old(self)@.ops.len(),
            final(self)@.well_formed(),
            final(self)@.flow() == old(self)@.flow().step(Op::Read),
    {
        let id = self.ops.len();
        let made = backend::call_reader(&self.at, &self.reader, name);
        proof {
            lemma_emit_well_formed(self@, Op::Read);
        }
        self.ops.push(Op::Read);
        match made {
            Some(raw) => Some(Value { id, raw }),
            None => None,
        }
    }

    /// Calls the runtime's "write one character" with a word.
    pub(crate) fn write(&mut self, word: &Value<IntValue<'ctx>>, name: &str)
        requires
            old(self)@.ready(),
            old(self)@.has(word.id(), Kind::Word),
        ensures
            final(self)@ == old(self)@.emit(Op::Write { arg: word.id() }),
            final(self)@.well_formed(),
            final(self)@.flow() == old(self)@.flow().step(Op::Write { arg: word.id() }),
    {
        backend::call_writer(&self.at, &self.writer, &word.raw, name);
        proof {
            lemma_emit_well_formed(self@, Op::Write { arg: word.id });
        }
        self.ops.push(Op::Write { arg: word.id });
    }

    /// Compares a byte with zero.
    pub(crate) fn nonzero(&mut self, value: &Value<IntValue<'ctx>>, name: &str) -> (v: Value<
        IntValue<'ctx>,
    >)
        requires
            old(self)@.ready(),
            old(self)@.has(value.id(), Kind::Byte),
        ensures
            final(self)@ == old(self)@.emit(Op::NonZero { val: value.id() }),
            v.id() == old(self)@.ops.len(),
            final(self)@.well_formed(),
            final(self)@.flow() == old(self)@.flow().step(Op::NonZero { val: value.id() }),
    {
        let id = self.ops.len();
        let raw = backend::is_nonzero(&self.at, &value.raw, name);
        proof {
            lemma_emit_well_formed(self@, Op::NonZero { val: value.id });
        }
        self.ops.push(Op::NonZero { val: value.id });
        Value { id, raw }
    }

    /// Branches to `target`.
    pub(crate) fn jump(&mut self, target: usize)
        requires
            old(self)@.ready(),
            target < old(self)@.blocks,
        ensures
            final(self)@ == old(self)@.emit(Op::Jump { target }),
            final(self)@.well_formed(),
            final(self)@.flow() == old(self)@.flow().step(Op::Jump { target }),
    {
        backend::jump(&self.at, &self.blocks[target]);
        proof {
            lemma_emit_well_formed(self@, Op::Jump { target });
        }
        self.ops.push(Op::Jump { target });
    }

    /// Branches to `then_block` if `flag` is set and to `else_block` if not.
    pub(crate) fn jump_if(
        &mut self,
        flag: &Value<IntValue<'ctx>>,
        then_block: usize,
        else_block: usize,
    )
        requires
            old(self)@.ready(),
            old(self)@.has(flag.id(), Kind::Flag),
            then_block < old(self)@.blocks,
            else_block < old(self)@.blocks,
        ensures
            final(self)@ == old(self)@.emit(
                Op::JumpIf { cond: flag.id(), then_block, else_block },
            ),
            final(self)@.well_formed(),
            final(self)@.flow() == old(self)@.flow().step(
                Op::JumpIf { cond: flag.id(), then_block, else_block },
            ),
    {
        backend::jump_if(&self.at, &flag.raw, &self.blocks[then_block], &self.blocks[else_block]);
        proof {
            lemma_emit_well_formed(self@, Op::JumpIf { cond: flag.id, then_block, else_block });
        }
        self.ops.push(Op::JumpIf { cond: flag.id, then_block, else_block });
    }

    /// Releases the memory at an address.
    pub(crate) fn release(&mut self, address: &Value<Address<'ctx>>)
        requires
            old(self)@.ready(),
            old(self)@.has(address.id(), Kind::Address),
        ensures
            final(self)@ == old(self)@.emit(Op::Release { addr: address.id() }),
            final(self)@.well_formed(),
            final(self)@.flow() == old(self)@.flow().step(Op::Release { addr: address.id() }),
    {
        backend::release(&self.at, &address.raw);
        proof {
            lemma_emit_well_formed(self@, Op::Release { addr: address.id });
        }
        self.ops.push(Op::Release { addr: address.id });
    }

    /// Returns zero from the program's function.
    pub(crate) fn return_zero(&mut self)
        requires
            old(self)@.ready(),
        ensures
            final(self)@ == old(self)@.emit(Op::Return),
            final(self)@.well_formed(),
            final(self)@.flow() == old(self)@.flow().step(Op::Return),
    {
        backend::return_zero(&self.at, self.context);
        proof {
            lemma_emit_well_formed(self@, Op::Return);
        }
        self.ops.push(Op::Return);
    }

    /// Ends the program: releases the tape and returns zero.
    pub fn finish(&mut self)
        requires
            old(self)@.ready(),
        ensures
            final(self)@ == old(self)@.extend(closing(old(self)@.ops.len() as int)),
            final(self)@.well_formed(),
            final(self)@.flow() == (Flow {
                ended: old(self)@.flow().ended.insert(old(self)@.current),
                ..old(self)@.flow()
            }),
    {
        let tape = self.fetch(Place::Base, "load");
        self.release(&tape);
        self.return_zero();
        assert(self@.ops =~= old(self)@.ops + closing(old(self)@.ops.len() as int));
    }
}

/// Stores what the allocator yielded: with an address, both slots are set to
/// it; without one, nothing is requested and the compilation fails.
pub fn install_tape<'ctx>(
    emitter: &mut Emitter<'ctx>,
    tape: Option<Value<Address<'ctx>>>,
) -> (done: Result<(), CompileError>)
    requires
        old(emitter)@.ready(),
        tape matches Some(v) ==> old(emitter)@.has(v.id(), Kind::Address),
    ensures
        final(emitter)@.ready(),
        final(emitter)@.flow() == old(emitter)@.flow(),
        match tape {
            Some(v) => done is Ok && final(emitter)@ == old(emitter)@.extend(installing(v.id())),
            None => done == Err::<(), CompileError>(CompileError::AllocBridge) && final(emitter)@
                == old(emitter)@,
        },
{
    match tape {
        Some(address) => {
            emitter.save(Place::Base, &address);
            emitter.save(Place::Cursor, &address);
            assert(emitter@.ops =~= old(emitter)@.ops + installing(address.id()));
            Ok(())
        },
        None => Err(CompileError::AllocBridge),
    }
}

} // verus!
