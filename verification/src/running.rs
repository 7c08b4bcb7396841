//! The compiled program at work: the requests of a listing run one after
//! the other, and every branch goes where its target block begins.
use crate::driver::compiled;
use crate::driver::compiles;
use crate::driver::exits;
use crate::driver::lemma_exits_below;
use crate::driver::place;
use crate::driver::start;
use crate::driver::state_at;
use crate::driver::Scan;
use crate::emitter::closing;
use crate::emitter::prologue;
use crate::emitter::TAPE_CELLS;
use crate::instructions::add_ops;
use crate::instructions::add_ptr_ops;
use crate::instructions::close_ops;
use crate::instructions::get_ops;
use crate::instructions::open_ops;
use crate::instructions::put_ops;
use crate::ir::Op;
use crate::laws::law_add_effect;
use crate::laws::law_add_ptr_effect;
use crate::laws::law_get_effect;
use crate::laws::law_program_starts_on_zeroed_tape;
use crate::laws::law_put_effect;
use crate::laws::law_stack_depth;
use crate::machine::byte;
use crate::machine::zeroed;
use crate::machine::Machine;
use crate::meaning::advance;
use crate::meaning::advances;
use crate::meaning::clear_loop;
use crate::meaning::law_clear_loop_empties_the_cell;
use crate::meaning::Reading;
use crate::source::balanced;
use crate::source::closer;
use crate::source::closes_matched;
use crate::source::count;
use crate::source::depth;
use crate::source::lemma_closer_exists;
use crate::source::opener;
use crate::wiring::law_close_returns_to_its_open;
use crate::wiring::lemma_requests_placed;
use crate::wiring::lemma_requests_stay;
use crate::wiring::loop_blocks;
use vstd::prelude::*;

verus! {

/// The request at position `i` moves the insertion point into `block`.
pub open spec fn enters(ops: Seq<Op>, i: int, block: nat) -> bool {
    0 <= i < ops.len() && ops[i] is Position && ops[i]->block == block
}

/// The position at which the instructions of `block` begin: behind the
/// request that moves the insertion point into it.
pub open spec fn entry(ops: Seq<Op>, block: nat) -> int {
    (choose|i: int| enters(ops, i, block)) + 1
}

/// A compiled program at work: what the machine holds, and the position of
/// the request that comes next.
pub struct Process {
    pub machine: Machine,
    pub at: int,
}

/// The process after the request at its position: a branch goes to where
/// its target block begins, a return stays where it is, and every other
/// request does its work and the next one follows.
pub open spec fn tick(ops: Seq<Op>, p: Process) -> Process {
    let op = ops[p.at];
    if op is Return {
        p
    } else {
        match p.machine.target(op) {
            Some(block) => Process { machine: p.machine, at: entry(ops, block) },
            None => Process { machine: p.machine.step(p.at, op), at: p.at + 1 },
        }
    }
}

/// The process after `n` requests.
pub open spec fn ticks(ops: Seq<Op>, p: Process, n: nat) -> Process
    decreases n,
{
    if n == 0 {
        p
    } else {
        tick(ops, ticks(ops, p, (n - 1) as nat))
    }
}

/// Running `a` requests and then `b` is running `a + b`.
pub proof fn lemma_ticks_add(ops: Seq<Op>, p: Process, a: nat, b: nat)
    ensures
        ticks(ops, p, a + b) == ticks(ops, ticks(ops, p, a), b),
    decreases b,
{
    if b > 0 {
        lemma_ticks_add(ops, p, a, (b - 1) as nat);
        assert((a + b - 1) as nat == a + (b - 1) as nat);
    }
}

/// Requests that are no branch and no return run one after the other.
pub proof fn lemma_ticks_straight(ops: Seq<Op>, p: Process, code: Seq<Op>)
    requires
        0 <= p.at,
        p.at + code.len() <= ops.len(),
        ops.subrange(p.at, p.at + code.len()) == code,
        forall|i: int|
            0 <= i < code.len() ==> !(#[trigger] code[i]).ends_block(),
    ensures
        ticks(ops, p, code.len()) == (Process {
            machine: p.machine.run(p.at, code),
            at: p.at + code.len(),
        }),
    decreases code.len(),
{
    if code.len() > 0 {
        let front = code.drop_last();
        assert(ops.subrange(p.at, p.at + front.len()) == front);
        lemma_ticks_straight(ops, p, front);
        let last = code.last();
        let here = front.len() as int;
        assert(ops[p.at + here] == ops.subrange(p.at, p.at + code.len())[here]);
        assert(!last.ends_block());
    }
}

impl Scan {
    /// No block is entered at two places, and the exits of the open loops
    /// are not entered yet.
    pub open spec fn entered_once(self) -> bool {
        &&& self.listing.blocks > 0
        &&& forall|i: int, j: int, block: nat|
            #![trigger enters(self.listing.ops, i, block), enters(self.listing.ops, j, block)]
            enters(self.listing.ops, i, block) && enters(self.listing.ops, j, block) ==> i == j
        &&& forall|i: int, block: nat| #[trigger]
            enters(self.listing.ops, i, block) ==> block < self.listing.blocks && !exits(
                self.loops,
            ).contains(block)
    }
}

/// Requests that are added behind a listing and move no insertion point
/// add no place at which a block is entered.
proof fn lemma_enters_before(old_ops: Seq<Op>, more: Seq<Op>, i: int, block: nat)
    requires
        enters(old_ops + more, i, block),
        forall|j: int| 0 <= j < more.len() ==> !(#[trigger] more[j] is Position),
    ensures
        enters(old_ops, i, block),
{
    if i >= old_ops.len() {
        assert((old_ops + more)[i] == more[i - old_ops.len()]);
    }
}

/// A step keeps the open loops nested and every block entered at one place
/// only, if the blocks after it fit in memory.
pub proof fn lemma_step_entered(before: Scan, command: char)
    requires
        before.nested(),
        before.entered_once(),
        before.step(command) matches Some(after) && after.listing.blocks <= usize::MAX,
    ensures
        before.step(command)->0.nested(),
        before.step(command)->0.entered_once(),
{
    let after = before.step(command)->0;
    let old_ops = before.listing.ops;
    let n = old_ops.len() as int;
    let made = before.listing.blocks;
    if command == '[' {
        assert(after.loops.drop_first() == before.loops);
        assert forall|i: int| 0 <= i < before.loops.len() implies (
        #[trigger] before.loops[i]).while_end < made by {
            assert(before.owns_blocks(i));
        }
        lemma_exits_below(before.loops, made);
        assert forall|i: int| 0 <= i < after.loops.len() implies #[trigger] after.owns_blocks(
            i,
        ) by {
            if i > 0 {
                assert(after.loops[i] == before.loops[i - 1]);
                assert(before.owns_blocks(i - 1));
            }
        }
        assert forall|i: int, j: int| 0 <= i < j < after.loops.len() implies (
        #[trigger] after.loops[j]).while_end < (#[trigger] after.loops[i]).while_start by {
            assert(after.loops[j] == before.loops[j - 1]);
            assert(before.owns_blocks(j - 1));
            if i > 0 {
                assert(after.loops[i] == before.loops[i - 1]);
            }
        }
        assert forall|i: int, block: nat| #[trigger]
            enters(after.listing.ops, i, block) implies (if i < n {
            enters(old_ops, i, block)
        } else {
            (i == n + 4 && block == made) || (i == n + 9 && block == made + 1)
        }) by {
            if i >= n {
                let k = i - n;
                assert(k == 0 || k == 1 || k == 2 || k == 3 || k == 4 || k == 5 || k == 6 || k == 7
                    || k == 8 || k == 9);
            }
        }
        assert forall|i: int, j: int, block: nat|
            #![trigger enters(after.listing.ops, i, block), enters(after.listing.ops, j, block)]
            enters(after.listing.ops, i, block) && enters(
                after.listing.ops,
                j,
                block,
            ) implies i == j by {
            if i < n && j < n {
                assert(enters(old_ops, i, block) && enters(old_ops, j, block));
            } else if i < n {
                assert(enters(old_ops, i, block));
            } else if j < n {
                assert(enters(old_ops, j, block));
            }
        }
        assert(exits(after.loops) == exits(before.loops).insert(made + 2));
        assert forall|i: int, block: nat| #[trigger]
            enters(after.listing.ops, i, block) implies block < after.listing.blocks && !exits(
            after.loops,
        ).contains(block) by {
            if i < n {
                assert(enters(old_ops, i, block));
                assert(block < made);
            } else {
                assert(block == made || block == made + 1);
            }
        }
    } else if command == ']' {
        let exit = before.loops[0].while_end as nat;
        assert(before.owns_blocks(0));
        assert forall|i: int| 0 <= i < after.loops.len() implies (
        #[trigger] after.loops[i]).while_end < exit by {
            assert(after.loops[i] == before.loops[i + 1]);
        }
        lemma_exits_below(after.loops, exit);
        assert forall|i: int| 0 <= i < after.loops.len() implies #[trigger] after.owns_blocks(
            i,
        ) by {
            assert(after.loops[i] == before.loops[i + 1]);
            assert(before.owns_blocks(i + 1));
        }
        assert forall|i: int, j: int| 0 <= i < j < after.loops.len() implies (
        #[trigger] after.loops[j]).while_end < (#[trigger] after.loops[i]).while_start by {
            assert(after.loops[j] == before.loops[j + 1]);
            assert(after.loops[i] == before.loops[i + 1]);
        }
        assert forall|i: int, block: nat| #[trigger]
            enters(after.listing.ops, i, block) implies (if i < n {
            enters(old_ops, i, block)
        } else {
            i == n + 1 && block == exit
        }) by {
            if i >= n {
                let k = i - n;
                assert(k == 0 || k == 1);
            }
        }
        assert forall|i: int, j: int, block: nat|
            #![trigger enters(after.listing.ops, i, block), enters(after.listing.ops, j, block)]
            enters(after.listing.ops, i, block) && enters(
                after.listing.ops,
                j,
                block,
            ) implies i == j by {
            if i < n && j < n {
                assert(enters(old_ops, i, block) && enters(old_ops, j, block));
            } else if i < n {
                assert(enters(old_ops, i, block));
            } else if j < n {
                assert(enters(old_ops, j, block));
            }
        }
        assert forall|i: int, block: nat| #[trigger]
            enters(after.listing.ops, i, block) implies block < after.listing.blocks && !exits(
            after.loops,
        ).contains(block) by {
            if i < n {
                assert(enters(old_ops, i, block));
            }
        }
    } else {
        let more = after.listing.ops.skip(n);
        assert(after.listing.ops == old_ops + more);
        assert forall|j: int| 0 <= j < more.len() implies !(#[trigger] more[j] is Position) by {
            assert(j == 0 || j == 1 || j == 2 || j == 3);
        }
        assert forall|i: int| 0 <= i < after.loops.len() implies #[trigger] after.owns_blocks(
            i,
        ) by {
            assert(before.owns_blocks(i));
        }
        assert forall|i: int, j: int, block: nat|
            #![trigger enters(after.listing.ops, i, block), enters(after.listing.ops, j, block)]
            enters(after.listing.ops, i, block) && enters(
                after.listing.ops,
                j,
                block,
            ) implies i == j by {
            lemma_enters_before(old_ops, more, i, block);
            lemma_enters_before(old_ops, more, j, block);
        }
        assert forall|i: int, block: nat| #[trigger]
            enters(after.listing.ops, i, block) implies block < after.listing.blocks && !exits(
            after.loops,
        ).contains(block) by {
            lemma_enters_before(old_ops, more, i, block);
        }
    }
}

/// Throughout a compilation the open loops are nested and every block is
/// entered at one place only.
pub proof fn lemma_scan_entered(source: Seq<char>, k: int)
    requires
        0 <= k <= source.len(),
        start().scan(source.take(k)) is Some,
        state_at(source, k).listing.blocks <= usize::MAX,
    ensures
        state_at(source, k).nested(),
        state_at(source, k).entered_once(),
    decreases k,
{
    if k == 0 {
        assert(source.take(0) == Seq::<char>::empty());
        let ops = start().listing.ops;
        assert forall|i: int, block: nat| #[trigger] enters(ops, i, block) implies i == 1 && block
            == 0 by {
            assert(i == 0 || i == 1 || i == 2 || i == 3 || i == 4 || i == 5 || i == 6);
        }
    } else {
        lemma_requests_stay(source, k - 1, k);
        lemma_scan_entered(source, k - 1);
        assert(source.take(k).drop_last() == source.take(k - 1));
        lemma_step_entered(state_at(source, k - 1), source[k - 1]);
    }
}

/// Where a block is entered at one place only, its instructions begin
/// behind that place.
pub proof fn lemma_entry(ops: Seq<Op>, i: int, block: nat)
    requires
        enters(ops, i, block),
        forall|j: int| #[trigger] enters(ops, j, block) ==> j == i,
    ensures
        entry(ops, block) == i + 1,
{
}

/// In the compiled listing the requests for each character stand where the
/// scan made them, and every block is entered at one place only.
pub proof fn lemma_layout(source: Seq<char>, k: int)
    requires
        compiles(source),
        0 <= k < source.len(),
    ensures
        start().scan(source.take(k)) is Some,
        state_at(source, k).step(source[k]) == Some(state_at(source, k + 1)),
        0 <= place(source, k) <= place(source, k + 1) <= compiled(source).len() - 3,
        compiled(source).subrange(place(source, k), place(source, k + 1)) == state_at(
            source,
            k + 1,
        ).listing.ops.skip(place(source, k)),
        state_at(source, k).listing.blocks <= state_at(source, k + 1).listing.blocks <= usize::MAX,
{
    let end = source.len() as int;
    assert(source.take(end) == source);
    lemma_requests_placed(source, k);
    lemma_requests_stay(source, k + 1, end);
    lemma_requests_stay(source, k, k + 1);
    let scanned = state_at(source, end).listing.ops;
    assert(compiled(source).subrange(place(source, k), place(source, k + 1)) == scanned.subrange(
        place(source, k),
        place(source, k + 1),
    ));
}

/// In the compiled listing a block whose entry is known begins behind it.
pub proof fn lemma_compiled_entry(source: Seq<char>, i: int, block: nat)
    requires
        compiles(source),
        enters(compiled(source), i, block),
    ensures
        entry(compiled(source), block) == i + 1,
{
    let end = source.len() as int;
    assert(source.take(end) == source);
    lemma_scan_entered(source, end);
    let last = state_at(source, end);
    let scanned = last.listing.ops;
    let ops = compiled(source);
    assert forall|j: int| #[trigger] enters(ops, j, block) implies enters(scanned, j, block) by {
        if j >= scanned.len() {
            let at = j - scanned.len();
            assert(at == 0 || at == 1 || at == 2);
        }
    }
    assert(enters(scanned, i, block));
    assert forall|j: int| #[trigger] enters(ops, j, block) implies j == i by {
        assert(enters(scanned, j, block) && enters(scanned, i, block));
    }
    lemma_entry(ops, i, block);
}

/// Where a `[` stands, the compiled listing holds the requests that open
/// its loop, and the loop's test and body begin among them.
pub proof fn lemma_loop_entries(source: Seq<char>, open: int)
    requires
        compiles(source),
        0 <= open < source.len(),
        source[open] == '[',
    ensures
        ({
            let at = place(source, open);
            let first = state_at(source, open).listing.blocks;
            &&& compiled(source).subrange(at, at + 10) == open_ops(
                at as nat,
                first,
                state_at(source, open).loops.len(),
            )
            &&& at + 10 == place(source, open + 1)
            &&& first + 2 <= usize::MAX
            &&& entry(compiled(source), first) == at + 5
            &&& entry(compiled(source), first + 1) == at + 10
        }),
{
    lemma_layout(source, open);
    let at = place(source, open);
    let first = state_at(source, open).listing.blocks;
    let code = open_ops(at as nat, first, state_at(source, open).loops.len());
    assert(state_at(source, open + 1).listing.ops.skip(at) == code);
    let ops = compiled(source);
    assert(ops[at + 4] == ops.subrange(at, at + 10)[4]);
    assert(ops[at + 9] == ops.subrange(at, at + 10)[9]);
    lemma_compiled_entry(source, at + 4, first);
    lemma_compiled_entry(source, at + 9, first + 1);
}

/// Where a `]` stands, the compiled listing holds the branch back to the
/// test of its loop, and the exit of that loop begins behind it.
pub proof fn lemma_exit_entry(source: Seq<char>, close: int)
    requires
        compiles(source),
        0 <= close < source.len(),
        source[close] == ']',
    ensures
        ({
            let at = place(source, close);
            let open = opener(source, close);
            let first = state_at(source, open).listing.blocks;
            &&& 0 <= open < close
            &&& source[open] == '['
            &&& compiled(source).subrange(at, at + 2) == close_ops(loop_blocks(first))
            &&& at + 2 == place(source, close + 1)
            &&& entry(compiled(source), first + 2) == at + 2
        }),
{
    lemma_layout(source, close);
    law_close_returns_to_its_open(source, close);
    let at = place(source, close);
    let open = opener(source, close);
    lemma_loop_entries(source, open);
    let first = state_at(source, open).listing.blocks;
    let ops = compiled(source);
    let scanned = state_at(source, source.len() as int).listing.ops;
    assert(ops.subrange(at, at + 2) == scanned.subrange(at, at + 2));
    assert(ops[at + 1] == ops.subrange(at, at + 2)[1]);
    lemma_compiled_entry(source, at + 1, first + 2);
}

/// The test of a loop, run from its beginning, changes nothing that a
/// program can observe, and goes into the body if the current cell is not
/// zero and to the exit if it is.
proof fn lemma_test_runs(ops: Seq<Op>, m: Machine, at: int, first: nat, depth: nat)
    requires
        0 <= at,
        at + 10 <= ops.len() <= usize::MAX,
        first + 2 <= usize::MAX,
        ops.subrange(at, at + 10) == open_ops(at as nat, first, depth),
    ensures
        ({
            let tested = ticks(ops, Process { machine: m, at: at + 5 }, 4);
            &&& tested.machine.same_data(m)
            &&& tested.at == entry(
                ops,
                if byte(m.tape[m.cursor]) != 0 {
                    first + 1
                } else {
                    first + 2
                },
            )
        }),
{
    let code = ops.subrange(at, at + 10);
    assert(ops[at + 5] == code[5]);
    assert(ops[at + 6] == code[6]);
    assert(ops[at + 7] == code[7]);
    assert(ops[at + 8] == code[8]);
    let p0 = Process { machine: m, at: at + 5 };
    let p1 = tick(ops, p0);
    let p2 = tick(ops, p1);
    let p3 = tick(ops, p2);
    let p4 = tick(ops, p3);
    assert(ticks(ops, p0, 0) == p0);
    assert(ticks(ops, p0, 1) == p1);
    assert(ticks(ops, p0, 2) == p2);
    assert(ticks(ops, p0, 3) == p3);
    assert(ticks(ops, p0, 4) == p4);
}

/// How many requests of the compiled listing run for the command that comes
/// next in the source.
pub open spec fn cost(source: Seq<char>, r: Reading) -> nat {
    if 0 <= r.at < source.len() {
        let command = source[r.at];
        if command == '[' {
            8
        } else if command == ']' {
            5
        } else if command == '+' || command == '-' || command == '.' || command == ',' {
            4
        } else if command == '>' || command == '<' {
            3
        } else {
            0
        }
    } else {
        0
    }
}

/// How many requests of the compiled listing run for the next `n` commands
/// of the source.
pub open spec fn costs(source: Seq<char>, r: Reading, n: nat) -> nat
    decreases n,
{
    if n == 0 {
        0
    } else {
        costs(source, r, (n - 1) as nat) + cost(source, advances(source, r, (n - 1) as nat))
    }
}

/// The process stands where the requests for the reading's next command
/// begin, and holds what the reading holds.
pub open spec fn follows(source: Seq<char>, p: Process, r: Reading) -> bool {
    &&& 0 <= r.at <= source.len()
    &&& p.at == place(source, r.at)
    &&& p.machine.same_data(r.machine)
}

/// One command of the source is what its requests in the compiled listing
/// do.
pub proof fn lemma_move_followed(source: Seq<char>, p: Process, r: Reading)
    requires
        balanced(source),
        compiles(source),
        follows(source, p, r),
    ensures
        follows(source, ticks(compiled(source), p, cost(source, r)), advance(source, r)),
{
    let ops = compiled(source);
    let k = r.at;
    if k < source.len() {
        lemma_layout(source, k);
        let command = source[k];
        let at = place(source, k);
        let code = state_at(source, k + 1).listing.ops.skip(at);
        let m = p.machine;
        if command == '[' {
            lemma_loop_entries(source, k);
            lemma_closer_exists(source, k);
            let close = closer(source, k);
            lemma_exit_entry(source, close);
            let first = state_at(source, k).listing.blocks;
            let opening = ops.subrange(at, at + 10);
            let blocks = opening.take(3);
            assert(ops.subrange(at, at + 3) == blocks);
            assert forall|i: int| 0 <= i < blocks.len() implies !(
            #[trigger] blocks[i]).ends_block() by {
                assert(i == 0 || i == 1 || i == 2);
            }
            lemma_ticks_straight(ops, p, blocks);
            let p3 = ticks(ops, p, 3);
            assert(blocks == Seq::<Op>::empty().push(blocks[0]).push(blocks[1]).push(blocks[2]));
            lemma_blocks_run(m, at, blocks);
            assert(ops[at + 3] == opening[3]);
            let p4 = tick(ops, p3);
            assert(ticks(ops, p, 4) == p4);
            assert(p4.at == at + 5);
            lemma_test_runs(ops, p4.machine, at, first, state_at(source, k).loops.len());
            lemma_ticks_add(ops, p, 4, 4);
        } else if command == ']' {
            lemma_exit_entry(source, k);
            let open = opener(source, k);
            lemma_layout(source, open);
            lemma_loop_entries(source, open);
            let first = state_at(source, open).listing.blocks;
            let closing = ops.subrange(at, at + 2);
            assert(ops[at] == closing[0]);
            let p1 = tick(ops, p);
            assert(ticks(ops, p, 0) == p);
            assert(ticks(ops, p, 1) == p1);
            assert(p1.at == place(source, open) + 5);
            lemma_test_runs(
                ops,
                p1.machine,
                place(source, open),
                first,
                state_at(source, open).loops.len(),
            );
            lemma_ticks_add(ops, p, 1, 4);
        } else {
            assert(ops.subrange(at, at + code.len()) == code);
            assert forall|i: int| 0 <= i < code.len() implies !(
            #[trigger] code[i]).ends_block() by {
                assert(i == 0 || i == 1 || i == 2 || i == 3);
            }
            lemma_ticks_straight(ops, p, code);
            if command == '+' {
                assert(code == add_ops(at as nat, 1));
                law_add_effect(m, at as nat, 1i32);
            } else if command == '-' {
                assert(code == add_ops(at as nat, -1i32));
                law_add_effect(m, at as nat, -1i32);
            } else if command == '>' {
                assert(code == add_ptr_ops(at as nat, 1));
                law_add_ptr_effect(m, at as nat, 1i32);
            } else if command == '<' {
                assert(code == add_ptr_ops(at as nat, -1i32));
                law_add_ptr_effect(m, at as nat, -1i32);
            } else if command == '.' {
                assert(code == put_ops(at as nat));
                law_put_effect(m, at as nat);
            } else if command == ',' {
                assert(code == get_ops(at as nat));
                law_get_effect(m, at as nat);
            } else {
                assert(code == Seq::<Op>::empty());
                assert(ticks(ops, p, 0) == p);
            }
        }
    } else {
        assert(ticks(compiled(source), p, 0) == p);
    }
}

/// The compiled program does what the source means. Whatever the machine
/// holds when the first command's requests begin: after the requests of the
/// compiled listing that the next `n` commands of the source cost, the
/// compiled program stands where the requests of the command begin that the
/// source has come to, and it holds what the source has made of the
/// machine. Loops are entered, repeated and left as the source says.
pub proof fn law_compiled_code_is_faithful(source: Seq<char>, m: Machine, n: nat)
    requires
        balanced(source),
        compiles(source),
    ensures
        follows(
            source,
            ticks(
                compiled(source),
                Process { machine: m, at: place(source, 0) },
                costs(source, Reading { machine: m, at: 0 }, n),
            ),
            advances(source, Reading { machine: m, at: 0 }, n),
        ),
    decreases n,
{
    let ops = compiled(source);
    let p = Process { machine: m, at: place(source, 0) };
    let r = Reading { machine: m, at: 0 };
    if n == 0 {
        assert(ticks(ops, p, 0) == p);
    } else {
        let before = (n - 1) as nat;
        law_compiled_code_is_faithful(source, m, before);
        lemma_move_followed(
            source,
            ticks(ops, p, costs(source, r, before)),
            advances(source, r, before),
        );
        lemma_ticks_add(
            ops,
            p,
            costs(source, r, before),
            cost(source, advances(source, r, before)),
        );
    }
}

/// A compiled program begins by allocating its tape: seven requests from
/// its first, it stands where the requests of the first command begin, on a
/// tape of 30,000 zeroed cells with the cursor on the first.
pub proof fn law_compiled_code_begins(source: Seq<char>, m: Machine)
    requires
        compiles(source),
    ensures
        place(source, 0) == 7,
        ({
            let ready = ticks(compiled(source), Process { machine: m, at: 0 }, 7);
            &&& ready.at == 7
            &&& ready.machine.same_data(
                Machine { base: 0, cursor: 0, tape: zeroed(TAPE_CELLS as int), ..m },
            )
        }),
{
    let ops = compiled(source);
    let end = source.len() as int;
    assert(source.take(end) == source);
    assert(source.take(0) == Seq::<char>::empty());
    lemma_requests_stay(source, 0, end);
    let code = prologue().ops;
    assert(ops.subrange(0, 7) == code);
    assert forall|i: int| 0 <= i < code.len() implies !(#[trigger] code[i]).ends_block() by {
        assert(i == 0 || i == 1 || i == 2 || i == 3 || i == 4 || i == 5 || i == 6);
    }
    lemma_ticks_straight(ops, Process { machine: m, at: 0 }, code);
    law_program_starts_on_zeroed_tape(m);
}

/// When the source is done, the compiled program releases its tape and
/// returns: two requests further it stands at its return, and there it
/// stays.
pub proof fn law_compiled_code_ends(source: Seq<char>, m: Machine, n: nat)
    requires
        compiles(source),
    ensures
        ({
            let ops = compiled(source);
            let done = Process { machine: m, at: place(source, source.len() as int) };
            let last = ticks(ops, done, 2);
            &&& last.at == ops.len() - 1
            &&& ops[last.at] is Return
            &&& last.machine.same_data(m)
            &&& ticks(ops, last, n) == last
        }),
    decreases n,
{
    let ops = compiled(source);
    let end = source.len() as int;
    let at = place(source, end);
    let done = Process { machine: m, at };
    let code = closing(at);
    assert(ops[at] == code[0]);
    assert(ops[at + 1] == code[1]);
    assert(ops[at + 2] == code[2]);
    let p1 = tick(ops, done);
    let p2 = tick(ops, p1);
    assert(ticks(ops, done, 0) == done);
    assert(ticks(ops, done, 1) == p1);
    assert(ticks(ops, done, 2) == p2);
    if n > 0 {
        law_compiled_code_ends(source, m, (n - 1) as nat);
    }
}

/// A listing grows by ten requests and three blocks for a character at
/// most.
pub proof fn lemma_sizes(source: Seq<char>, k: int)
    requires
        0 <= k <= source.len(),
        start().scan(source.take(k)) is Some,
    ensures
        place(source, k) <= 7 + 10 * k,
        state_at(source, k).listing.blocks <= 1 + 3 * k,
    decreases k,
{
    if k == 0 {
        assert(source.take(0) == Seq::<char>::empty());
    } else {
        lemma_requests_stay(source, k - 1, k);
        lemma_sizes(source, k - 1);
        assert(source.take(k).drop_last() == source.take(k - 1));
    }
}

/// A source of a hundred million characters at most, with no `]` that
/// closes no loop, is compiled without a fault into a listing that fits in
/// memory.
pub proof fn lemma_short_source_compiles(source: Seq<char>)
    requires
        closes_matched(source),
        source.len() <= 100_000_000,
    ensures
        compiles(source),
{
    law_stack_depth(start(), source);
    let end = source.len() as int;
    assert(source.take(end) == source);
    lemma_sizes(source, end);
}

/// The code compiled for `[-]` clears the current cell: entered with a cell
/// that holds `v`, it goes through the loop `v` times, and when it stands
/// behind the loop the cell holds zero and nothing else has changed.
pub proof fn law_clear_loop_compiled(m: Machine, v: nat)
    requires
        v < 256,
        m.tape[m.cursor] == v,
    ensures
        ({
            let source = clear_loop();
            let ran = ticks(
                compiled(source),
                Process { machine: m, at: place(source, 0) },
                costs(source, Reading { machine: m, at: 0 }, 1 + 2 * v),
            );
            &&& ran.at == place(source, 3)
            &&& v > 0 ==> ran.machine.same_data(Machine { tape: m.tape.insert(m.cursor, 0), ..m })
            &&& v == 0 ==> ran.machine.same_data(m)
        }),
{
    let source = clear_loop();
    assert forall|k: int| 0 <= k <= source.len() implies depth(#[trigger] source.take(k))
        >= 0 by {
        lemma_clear_loop_depths();
        assert(k == 0 || k == 1 || k == 2 || k == 3);
    }
    lemma_clear_loop_depths();
    assert(source.take(3) == source);
    lemma_short_source_compiles(source);
    law_compiled_code_is_faithful(source, m, 1 + 2 * v);
    law_clear_loop_empties_the_cell(m, v);
}

/// In each part of `[-]` that comes first, the `]` do not outnumber the
/// `[`, and in the whole they are as many.
proof fn lemma_clear_loop_depths()
    ensures
        depth(clear_loop().take(0)) == 0,
        depth(clear_loop().take(1)) == 1,
        depth(clear_loop().take(2)) == 1,
        depth(clear_loop().take(3)) == 0,
{
    let source = clear_loop();
    assert(source.take(3).drop_last() == source.take(2));
    assert(source.take(2).drop_last() == source.take(1));
    assert(source.take(1).drop_last() == source.take(0));
    assert(source.take(0).len() == 0);
    reveal_with_fuel(count, 4);
}

/// Requests that make blocks change nothing in the machine.
proof fn lemma_blocks_run(m: Machine, at: int, blocks: Seq<Op>)
    requires
        forall|i: int| 0 <= i < blocks.len() ==> #[trigger] blocks[i] is Block,
    ensures
        m.run(at, blocks) == m,
    decreases blocks.len(),
{
    if blocks.len() > 0 {
        lemma_blocks_run(m, at, blocks.drop_last());
        assert(blocks.last() == blocks[blocks.len() - 1]);
    }
}

} // verus!
