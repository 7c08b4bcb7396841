use crate::emitter::Emitter;
use crate::ir::Op;
use crate::ir::Place;
use vstd::prelude::*;

verus! {

/// What `build_add` requests when `n` requests were made before: fetch the
/// cursor, load the cell it selects, add, and store the sum in that cell.
pub open spec fn add_ops(n: nat, amt: i32) -> Seq<Op> {
    seq![
        Op::Fetch { place: Place::Cursor },
        Op::Load { addr: n as usize },
        Op::Add { lhs: (n + 1) as usize, amt },
        Op::Store { addr: n as usize, val: (n + 2) as usize },
    ]
}

/// Compiles `+` (`amt` 1) and `-` (`amt` -1): adds `amt` to the current
/// cell, wrapping modulo 256.
pub fn build_add<'ctx>(emitter: &mut Emitter<'ctx>, amt: i32)
    requires
        old(emitter)@.ready(),
    ensures
        final(emitter)@.ready(),
        final(emitter)@.flow() == old(emitter)@.flow(),
        final(emitter)@ == old(emitter)@.extend(add_ops(old(emitter)@.ops.len(), amt)),
{
    let address = emitter.fetch(Place::Cursor, "load ptr");
    let cell = emitter.load(&address, "load ptr value");
    let sum = emitter.add_constant(&cell, amt, "add data to ptr");
    emitter.store(&address, &sum);
    assert(emitter@.ops =~= old(emitter)@.ops + add_ops(old(emitter)@.ops.len(), amt));
}

} // verus!
