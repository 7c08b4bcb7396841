use crate::emitter::Emitter;
use crate::ir::Op;
use crate::ir::Place;
use vstd::prelude::*;

verus! {

/// What `build_add_ptr` requests when `n` requests were made before: fetch
/// the cursor, offset it, and store the new address as the cursor.
pub open spec fn add_ptr_ops(n: nat, amt: i32) -> Seq<Op> {
    seq![
        Op::Fetch { place: Place::Cursor },
        Op::Offset { base: n as usize, amt },
        Op::Save { place: Place::Cursor, val: (n + 1) as usize },
    ]
}

/// Compiles `>` (`amt` 1) and `<` (`amt` -1): moves the cursor by `amt`
/// cells. No bound is checked.
pub fn build_add_ptr<'ctx>(emitter: &mut Emitter<'ctx>, amt: i32)
    requires
        old(emitter)@.ready(),
    ensures
        final(emitter)@.ready(),
        final(emitter)@.flow() == old(emitter)@.flow(),
        final(emitter)@ == old(emitter)@.extend(add_ptr_ops(old(emitter)@.ops.len(), amt)),
{
    let address = emitter.fetch(Place::Cursor, "load ptr");
    let moved = emitter.offset(&address, amt, "add to pointer");
    emitter.save(Place::Cursor, &moved);
    assert(emitter@.ops =~= old(emitter)@.ops + add_ptr_ops(old(emitter)@.ops.len(), amt));
}

} // verus!
