use crate::emitter::Emitter;
use crate::ir::Op;
use crate::ir::Place;
use vstd::prelude::*;

verus! {

/// What `build_put` requests when `n` requests were made before: fetch the
/// cursor, load the cell it selects, sign-extend the byte and write it.
pub open spec fn put_ops(n: nat) -> Seq<Op> {
    seq![
        Op::Fetch { place: Place::Cursor },
        Op::Load { addr: n as usize },
        Op::Extend { src: (n + 1) as usize },
        Op::Write { arg: (n + 2) as usize },
    ]
}

/// Compiles `.`: writes the current cell as one character.
pub fn build_put<'ctx>(emitter: &mut Emitter<'ctx>)
    requires
        old(emitter)@.ready(),
    ensures
        final(emitter)@.ready(),
        final(emitter)@.flow() == old(emitter)@.flow(),
        final(emitter)@ == old(emitter)@.extend(put_ops(old(emitter)@.ops.len())),
{
    let address = emitter.fetch(Place::Cursor, "load ptr value");
    let cell = emitter.load(&address, "load ptr ptr value");
    let word = emitter.extend(&cell, "putchar sign extend");
    emitter.write(&word, "putchar call");
    assert(emitter@.ops =~= old(emitter)@.ops + put_ops(old(emitter)@.ops.len()));
}

} // verus!
