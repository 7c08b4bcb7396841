//! The tape machine: what the requests of a listing do to the tape, the
//! cursor and the two character streams when the compiled program runs.
//!
//! This is the memory contract the generated code relies on, as ghost code:
//! a tape of bytes, all zero at the start, a cursor that selects one cell,
//! and no bound checked on either. Branches leave all of this unchanged;
//! where control goes next is not part of this model.
use crate::ir::Op;
use crate::ir::Place;
use vstd::prelude::*;

verus! {

/// The state of a running program.
pub struct Machine {
    /// What the requests executed so far have yielded, by their position in
    /// the listing.
    pub vals: Map<int, int>,
    /// The address in the base slot.
    pub base: int,
    /// The address in the cursor slot.
    pub cursor: int,
    /// The byte at each address.
    pub tape: Map<int, int>,
    /// The characters not read yet.
    pub input: Seq<int>,
    /// The characters written so far.
    pub output: Seq<int>,
}

/// The low eight bits of a number, as a value from 0 to 255.
pub open spec fn byte(x: int) -> int {
    x % 256
}

/// The low eight bits of a number, read as a signed byte.
pub open spec fn signed(x: int) -> int {
    if byte(x) < 128 {
        byte(x)
    } else {
        byte(x) - 256
    }
}

/// A tape of `cells` zeroed cells at the addresses from 0.
pub open spec fn zeroed(cells: int) -> Map<int, int> {
    Map::new(|a: int| 0 <= a < cells, |a: int| 0int)
}

impl Machine {
    /// The machine after the request at position `at` has yielded `v`.
    pub open spec fn yields(self, at: int, v: int) -> Machine {
        Machine { vals: self.vals.insert(at, v), ..self }
    }

    /// The machine after the request `op`, which stands at position `at` of
    /// the listing.
    pub open spec fn step(self, at: int, op: Op) -> Machine {
        match op {
            Op::Allocate { cells } => (Machine { tape: zeroed(cells as int), ..self }).yields(
                at,
                0,
            ),
            Op::Save { place, val } => match place {
                Place::Base => Machine { base: self.vals[val as int], ..self },
                Place::Cursor => Machine { cursor: self.vals[val as int], ..self },
            },
            Op::Fetch { place } => match place {
                Place::Base => self.yields(at, self.base),
                Place::Cursor => self.yields(at, self.cursor),
            },
            Op::Load { addr } => self.yields(at, self.tape[self.vals[addr as int]]),
            Op::Store { addr, val } => Machine {
                tape: self.tape.insert(self.vals[addr as int], self.vals[val as int]),
                ..self
            },
            Op::Add { lhs, amt } => self.yields(at, byte(self.vals[lhs as int] + amt)),
            Op::Offset { base, amt } => self.yields(at, self.vals[base as int] + amt),
            Op::Extend { src } => self.yields(at, signed(self.vals[src as int])),
            Op::Truncate { src } => self.yields(at, byte(self.vals[src as int])),
            Op::Read => if self.input.len() > 0 {
                (Machine { input: self.input.drop_first(), ..self }).yields(at, self.input[0])
            } else {
                self.yields(at, -1)
            },
            Op::Write { arg } => Machine {
                output: self.output.push(self.vals[arg as int]),
                ..self
            },
            Op::NonZero { val } => self.yields(
                at,
                if byte(self.vals[val as int]) != 0 {
                    1
                } else {
                    0
                },
            ),
            Op::Block { .. } | Op::Position { .. } | Op::Reserve { .. } | Op::Jump { .. }
            | Op::JumpIf { .. } | Op::Release { .. } | Op::Return => self,
        }
    }

    /// The block a branch sends control to; `None` for a request that is no
    /// branch.
    pub open spec fn target(self, op: Op) -> Option<nat> {
        match op {
            Op::Jump { target } => Some(target as nat),
            Op::JumpIf { cond, then_block, else_block } => Some(
                if self.vals[cond as int] != 0 {
                    then_block as nat
                } else {
                    else_block as nat
                },
            ),
            _ => None,
        }
    }

    /// The machine after a run of requests, one after the other, of which
    /// the first stands at position `at` of the listing.
    pub open spec fn run(self, at: int, ops: Seq<Op>) -> Machine
        decreases ops.len(),
    {
        if ops.len() == 0 {
            self
        } else {
            self.run(at, ops.drop_last()).step(at + ops.len() - 1, ops.last())
        }
    }

    /// Two machines agree on all that a program can observe.
    pub open spec fn same_data(self, other: Machine) -> bool {
        &&& self.base == other.base
        &&& self.cursor == other.cursor
        &&& self.tape == other.tape
        &&& self.input == other.input
        &&& self.output == other.output
    }
}

/// Running two runs of requests one after the other is running their
/// concatenation.
pub proof fn lemma_run_concat(m: Machine, at: int, first: Seq<Op>, second: Seq<Op>)
    ensures
        m.run(at, first + second) == m.run(at, first).run(at + first.len(), second),
    decreases second.len(),
{
    if second.len() == 0 {
        assert(first + second == first);
    } else {
        assert((first + second).drop_last() == first + second.drop_last());
        assert((first + second).last() == second.last());
        lemma_run_concat(m, at, first, second.drop_last());
    }
}

} // verus!
