//! The operations a compilation asks of the code-generation backend, as plain
//! values, and the listing that records them in the order they were asked.
//!
//! An operation that computes a value is referred to by its position in the
//! listing: `Op::Load { addr: 7 }` loads from the address that operation 7
//! produced.
use vstd::prelude::*;
use vstd::string::StringExecFns;

verus! {

/// The two storage slots every compiled program has on its stack.
#[derive(Clone, Copy, Debug, PartialEq, Eq)]
pub enum Place {
    /// Holds the address of the first tape cell, for the final release.
    Base,
    /// Holds the address of the currently selected cell.
    Cursor,
}

/// What a basic block is for.
#[derive(Clone, Copy, Debug, PartialEq, Eq)]
pub enum LabelKind {
    /// The block the compiled program starts in.
    Entry,
    /// The block that tests the current cell and decides whether a loop runs.
    WhileStart,
    /// The block that holds what stands between the brackets.
    WhileBody,
    /// The block that follows the loop.
    WhileEnd,
}

/// The diagnostic tag of a basic block: its purpose and the nesting depth of
/// the loop it belongs to (1 for an outermost loop, 0 for the entry block).
#[derive(Clone, Copy, Debug, PartialEq, Eq)]
pub struct Label {
    pub kind: LabelKind,
    pub depth: usize,
}

/// The character of a decimal digit.
pub open spec fn digit(d: nat) -> char {
    seq!['0', '1', '2', '3', '4', '5', '6', '7', '8', '9'][d as int]
}

/// A number in decimal, without leading zeros.
pub open spec fn decimal(n: nat) -> Seq<char>
    decreases n,
{
    if n < 10 {
        seq![digit(n)]
    } else {
        decimal(n / 10).push(digit(n % 10))
    }
}

/// The digit `d` as a string of one character.
fn digit_str(d: usize) -> (s: &'static str)
    requires
        d < 10,
    ensures
        s@ == seq![digit(d as nat)],
{
    proof {
        reveal_strlit("0");
        reveal_strlit("1");
        reveal_strlit("2");
        reveal_strlit("3");
        reveal_strlit("4");
        reveal_strlit("5");
        reveal_strlit("6");
        reveal_strlit("7");
        reveal_strlit("8");
        reveal_strlit("9");
    }
    let s = if d == 0 {
        "0"
    } else if d == 1 {
        "1"
    } else if d == 2 {
        "2"
    } else if d == 3 {
        "3"
    } else if d == 4 {
        "4"
    } else if d == 5 {
        "5"
    } else if d == 6 {
        "6"
    } else if d == 7 {
        "7"
    } else if d == 8 {
        "8"
    } else {
        "9"
    };
    assert(s@ =~= seq![digit(d as nat)]);
    s
}

/// A number in decimal, as a string.
pub fn decimal_string(n: usize) -> (s: String)
    ensures
        s@ == decimal(n as nat),
    decreases n,
{
    if n < 10 {
        String::from_str(digit_str(n))
    } else {
        let mut s = decimal_string(n / 10);
        s.append(digit_str(n % 10));
        assert(s@ =~= decimal(n as nat));
        s
    }
}

/// A word, a space and a number in decimal.
fn numbered(word: &str, n: usize) -> (s: String)
    ensures
        s@ == word@ + seq![' '] + decimal(n as nat),
{
    proof {
        reveal_strlit(" ");
    }
    let mut s = String::from_str(word);
    s.append(" ");
    let number = decimal_string(n);
    s.append(number.as_str());
    assert(s@ =~= word@ + seq![' '] + decimal(n as nat));
    s
}

impl Label {
    /// The name a block is given in the module: `entry` for the entry block,
    /// else the block's purpose, a space, and the nesting depth.
    pub open spec fn text(self) -> Seq<char> {
        match self.kind {
            LabelKind::Entry => "entry"@,
            LabelKind::WhileStart => "while_start"@ + seq![' '] + decimal(self.depth as nat),
            LabelKind::WhileBody => "while_body"@ + seq![' '] + decimal(self.depth as nat),
            LabelKind::WhileEnd => "while_end"@ + seq![' '] + decimal(self.depth as nat),
        }
    }

    /// The name of the block, as a string.
    pub fn name(&self) -> (s: String)
        ensures
            s@ == self.text(),
    {
        match self.kind {
            LabelKind::Entry => String::from_str("entry"),
            LabelKind::WhileStart => numbered("while_start", self.depth),
            LabelKind::WhileBody => numbered("while_body", self.depth),
            LabelKind::WhileEnd => numbered("while_end", self.depth),
        }
    }
}

/// One request to the backend.
#[derive(Clone, Copy, Debug, PartialEq, Eq)]
pub enum Op {
    /// A new basic block, appended to the program's function; `id` counts
    /// blocks from 0 in the order they were appended.
    Block { id: usize, label: Label },
    /// Move the insertion point to the end of a block.
    Position { block: usize },
    /// Reserve a storage slot on the stack.
    Reserve { place: Place },
    /// Allocate `cells` zeroed bytes; yields the address of the first.
    Allocate { cells: u64 },
    /// Store an address into a slot.
    Save { place: Place, val: usize },
    /// Load the address a slot holds; yields that address.
    Fetch { place: Place },
    /// Load the byte at an address; yields the byte.
    Load { addr: usize },
    /// Store a byte at an address.
    Store { addr: usize, val: usize },
    /// Add a constant to a byte, wrapping modulo 256; yields the sum. Only
    /// the low eight bits of `amt` count.
    Add { lhs: usize, amt: i32 },
    /// Offset an address by `amt` cells; yields the new address.
    Offset { base: usize, amt: i32 },
    /// Sign-extend a byte to a 32-bit word; yields the word.
    Extend { src: usize },
    /// Truncate a 32-bit word to its low byte; yields the byte.
    Truncate { src: usize },
    /// Call the runtime's "read one character"; yields a 32-bit word.
    Read,
    /// Call the runtime's "write one character" with a 32-bit word.
    Write { arg: usize },
    /// Compare a byte with zero; yields the flag "is not zero".
    NonZero { val: usize },
    /// Branch to a block.
    Jump { target: usize },
    /// Branch to `then_block` if the flag is set, else to `else_block`.
    JumpIf { cond: usize, then_block: usize, else_block: usize },
    /// Release the memory at an address.
    Release { addr: usize },
    /// Return zero from the program's function.
    Return,
}

/// The kinds of value a request can yield.
#[derive(Clone, Copy, Debug, PartialEq, Eq)]
pub enum Kind {
    /// The address of a tape cell.
    Address,
    /// The content of a tape cell.
    Byte,
    /// A character as the runtime passes it, 32 bits wide.
    Word,
    /// The outcome of a comparison.
    Flag,
}

impl Op {
    /// The kind of value a request yields, if it yields one.
    pub open spec fn kind(self) -> Option<Kind> {
        match self {
            Op::Allocate { .. } | Op::Fetch { .. } | Op::Offset { .. } => Some(Kind::Address),
            Op::Load { .. } | Op::Add { .. } | Op::Truncate { .. } => Some(Kind::Byte),
            Op::Extend { .. } | Op::Read => Some(Kind::Word),
            Op::NonZero { .. } => Some(Kind::Flag),
            _ => None,
        }
    }

    /// The request ends the block it is appended to.
    pub open spec fn ends_block(self) -> bool {
        self is Jump || self is JumpIf || self is Return
    }

    /// The request appends an instruction to the current block.
    pub open spec fn is_instruction(self) -> bool {
        !(self is Block) && !(self is Position)
    }
}

/// How the blocks of a listing stand.
pub struct Flow {
    /// How many blocks were made.
    pub blocks: nat,
    /// The block the insertion point is in.
    pub current: nat,
    /// The blocks that end in a branch or a return.
    pub ended: Set<nat>,
    /// No instruction was appended to a block that had ended.
    pub sound: bool,
}

impl Flow {
    /// How the blocks stand after one more request.
    pub open spec fn step(self, op: Op) -> Flow {
        match op {
            Op::Block { .. } => Flow { blocks: self.blocks + 1, ..self },
            Op::Position { block } => Flow { current: block as nat, ..self },
            _ => Flow {
                ended: if op.ends_block() {
                    self.ended.insert(self.current)
                } else {
                    self.ended
                },
                sound: self.sound && !self.ended.contains(self.current),
                ..self
            },
        }
    }
}

/// How the blocks stand after a run of requests, the first of which is made
/// with no block there.
pub open spec fn flow(ops: Seq<Op>) -> Flow
    decreases ops.len(),
{
    if ops.len() == 0 {
        Flow { blocks: 0, current: 0, ended: Set::empty(), sound: true }
    } else {
        flow(ops.drop_last()).step(ops.last())
    }
}

/// What has been asked of the backend so far.
pub struct Listing {
    /// The requests, oldest first.
    pub ops: Seq<Op>,
    /// How many basic blocks exist.
    pub blocks: nat,
    /// The block new instructions are appended to.
    pub current: nat,
}

impl Listing {
    /// The listing after one more request.
    pub open spec fn emit(self, op: Op) -> Listing {
        Listing {
            ops: self.ops.push(op),
            blocks: if op is Block {
                self.blocks + 1
            } else {
                self.blocks
            },
            current: if let Op::Position { block } = op {
                block as nat
            } else {
                self.current
            },
        }
    }

    /// The listing after requests that neither make a block nor move the
    /// insertion point.
    pub open spec fn extend(self, ops: Seq<Op>) -> Listing {
        Listing { ops: self.ops + ops, blocks: self.blocks, current: self.current }
    }

    /// Request `id` stands before position `before` and yields a value of
    /// kind `kind`.
    pub open spec fn names(self, id: usize, before: int, kind: Kind) -> bool {
        id < before <= self.ops.len() && self.ops[id as int].kind() == Some(kind)
    }

    /// Some request so far yields a value of kind `kind` at position `id`.
    pub open spec fn has(self, id: usize, kind: Kind) -> bool {
        self.names(id, self.ops.len() as int, kind)
    }

    /// Request `i` takes only values that earlier requests yield, each of
    /// the kind the request is for, and names only blocks that exist.
    pub open spec fn fits(self, i: int) -> bool {
        match self.ops[i] {
            Op::Block { id, .. } => id < self.blocks,
            Op::Position { block } => block < self.blocks,
            Op::Save { val, .. } => self.names(val, i, Kind::Address),
            Op::Load { addr } => self.names(addr, i, Kind::Address),
            Op::Store { addr, val } => self.names(addr, i, Kind::Address) && self.names(
                val,
                i,
                Kind::Byte,
            ),
            Op::Add { lhs, .. } => self.names(lhs, i, Kind::Byte),
            Op::Offset { base, .. } => self.names(base, i, Kind::Address),
            Op::Extend { src } => self.names(src, i, Kind::Byte),
            Op::Truncate { src } => self.names(src, i, Kind::Word),
            Op::Write { arg } => self.names(arg, i, Kind::Word),
            Op::NonZero { val } => self.names(val, i, Kind::Byte),
            Op::Jump { target } => target < self.blocks,
            Op::JumpIf { cond, then_block, else_block } => self.names(cond, i, Kind::Flag)
                && then_block < self.blocks && else_block < self.blocks,
            Op::Release { addr } => self.names(addr, i, Kind::Address),
            Op::Reserve { .. } | Op::Allocate { .. } | Op::Fetch { .. } | Op::Read
            | Op::Return => true,
        }
    }

    /// How the blocks of this listing stand.
    pub open spec fn flow(self) -> Flow {
        flow(self.ops)
    }

    /// The listing is in order: every request fits, the count of blocks and
    /// the insertion point are what the requests say, the insertion point is
    /// in a block that exists, only blocks that exist have ended, and no
    /// instruction follows the end of its block.
    pub open spec fn well_formed(self) -> bool {
        &&& self.current < self.blocks
        &&& forall|i: int| 0 <= i < self.ops.len() ==> #[trigger] self.fits(i)
        &&& self.flow().blocks == self.blocks
        &&& self.flow().current == self.current
        &&& self.flow().sound
        &&& forall|b: nat| #[trigger] self.flow().ended.contains(b) ==> b < self.blocks
    }

    /// The listing is in order and the block at the insertion point has not
    /// ended: an instruction can be appended.
    pub open spec fn ready(self) -> bool {
        self.well_formed() && !self.flow().ended.contains(self.current)
    }

    /// Every block ends in a branch or a return, and no instruction follows
    /// the end of its block.
    pub open spec fn complete(self) -> bool {
        &&& self.well_formed()
        &&& forall|b: nat| b < self.blocks ==> self.flow().ended.contains(b)
    }

    /// The request `op` would fit as the next one.
    pub open spec fn accepts(self, op: Op) -> bool {
        &&& self.emit(op).fits(self.ops.len() as int)
        &&& op.is_instruction() ==> !self.flow().ended.contains(self.current)
    }
}

/// The blocks after one more request stand as the step says.
pub proof fn lemma_flow_push(ops: Seq<Op>, op: Op)
    ensures
        flow(ops.push(op)) == flow(ops).step(op),
{
    assert(ops.push(op).drop_last() == ops);
}

/// A listing in order stays in order when a request is added that fits.
pub proof fn lemma_emit_well_formed(listing: Listing, op: Op)
    requires
        listing.well_formed(),
        listing.accepts(op),
    ensures
        listing.emit(op).well_formed(),
        listing.emit(op).flow() == listing.flow().step(op),
{
    let after = listing.emit(op);
    assert(after.ops.drop_last() == listing.ops);
    assert forall|i: int| 0 <= i < after.ops.len() implies #[trigger] after.fits(i) by {
        if i < listing.ops.len() {
            assert(listing.fits(i));
        }
    }
}

} // verus!
