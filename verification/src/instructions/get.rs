use crate::emitter::Emitter;
use crate::emitter::Value;
use crate::error::CompileError;
use crate::ir::Kind;
use crate::ir::Op;
use crate::ir::Place;
use inkwell::values::IntValue;
use vstd::prelude::*;

verus! {

/// What `store_input` requests when `n` requests were made before and the
/// character read is the value of request `word`: truncate it to a byte,
/// fetch the cursor, and store the byte in the cell it selects.
pub open spec fn store_ops(n: nat, word: usize) -> Seq<Op> {
    seq![
        Op::Truncate { src: word },
        Op::Fetch { place: Place::Cursor },
        Op::Store { addr: (n + 1) as usize, val: n as usize },
    ]
}

/// What a successful `build_get` requests when `n` requests were made
/// before: the read, then the store of what was read.
pub open spec fn get_ops(n: nat) -> Seq<Op> {
    seq![Op::Read] + store_ops(n + 1, n as usize)
}

/// Stores what a read yielded. With a character, its low byte is stored in
/// the current cell; without one, nothing is requested and the compilation
/// fails.
pub fn store_input<'ctx>(
    emitter: &mut Emitter<'ctx>,
    word: Option<Value<IntValue<'ctx>>>,
) -> (done: Result<(), CompileError>)
    requires
        old(emitter)@.ready(),
        word matches Some(v) ==> old(emitter)@.has(v.id(), Kind::Word),
    ensures
        final(emitter)@.ready(),
        final(emitter)@.flow() == old(emitter)@.flow(),
        match word {
            Some(v) => done is Ok && final(emitter)@ == old(emitter)@.extend(
                store_ops(old(emitter)@.ops.len(), v.id()),
            ),
            None => done == Err::<(), CompileError>(CompileError::IoBridge) && final(emitter)@
                == old(emitter)@,
        },
{
    match word {
        Some(read) => {
            let byte = emitter.truncate(&read, "getchar truncate result");
            let address = emitter.fetch(Place::Cursor, "load ptr value");
            emitter.store(&address, &byte);
            assert(emitter@.ops =~= old(emitter)@.ops + store_ops(
                old(emitter)@.ops.len(),
                read.id(),
            ));
            Ok(())
        },
        None => Err(CompileError::IoBridge),
    }
}

/// Compiles `,`: reads one character into the current cell. Fails with
/// `IoBridge`, after the call was requested, if the call yields no value.
pub fn build_get<'ctx>(emitter: &mut Emitter<'ctx>) -> (done: Result<(), CompileError>)
    requires
        old(emitter)@.ready(),
    ensures
        final(emitter)@.ready(),
        final(emitter)@.flow() == old(emitter)@.flow(),
        match done {
            Ok(()) => final(emitter)@ == old(emitter)@.extend(get_ops(old(emitter)@.ops.len())),
            Err(e) => e == CompileError::IoBridge && final(emitter)@ == old(emitter)@.emit(
                Op::Read,
            ),
        },
{
    let word = emitter.read("getchar call");
    let done = store_input(emitter, word);
    assert(done is Ok ==> emitter@.ops =~= old(emitter)@.ops + get_ops(old(emitter)@.ops.len()));
    done
}

} // verus!
