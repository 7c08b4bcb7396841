//! What holds of every compilation, proved from the contracts of the
//! builders and the tape machine.
use crate::driver::start;
use crate::driver::Scan;
use crate::emitter::prologue;
use crate::emitter::TAPE_CELLS;
use crate::instructions::add_ops;
use crate::instructions::add_ptr_ops;
use crate::instructions::close_ops;
use crate::instructions::get_ops;
use crate::instructions::open_ops;
use crate::instructions::put_ops;
use crate::instructions::WhileBlock;
use crate::ir::Op;
use crate::machine::byte;
use crate::machine::lemma_run_concat;
use crate::machine::signed;
use crate::machine::zeroed;
use crate::machine::Machine;
use crate::meaning::interpret;
use crate::source::balanced;
use crate::source::closes_matched;
use crate::source::count;
use crate::source::depth;
use crate::source::no_brackets;
use crate::source::only_additions;
use crate::source::only_moves;
use vstd::prelude::*;

verus! {

/// What was requested between two states of a compilation.
pub open spec fn requested(from: Scan, to: Scan) -> Seq<Op> {
    to.listing.ops.skip(from.listing.ops.len() as int)
}

/// The machine after what was requested between two states of a
/// compilation has run.
pub open spec fn outcome(m: Machine, from: Scan, to: Scan) -> Machine {
    m.run(from.listing.ops.len() as int, requested(from, to))
}

proof fn lemma_run_push(m: Machine, at: int, ops: Seq<Op>, op: Op)
    ensures
        m.run(at, ops.push(op)) == m.run(at, ops).step(at + ops.len(), op),
{
    assert(ops.push(op).drop_last() == ops);
}

/// Every program starts on a tape of 30,000 zeroed cells, with the cursor on
/// the first of them; the character streams are untouched.
pub proof fn law_program_starts_on_zeroed_tape(m: Machine)
    ensures
        m.run(0, prologue().ops).same_data(
            Machine { base: 0, cursor: 0, tape: zeroed(TAPE_CELLS as int), ..m },
        ),
{
    let ops = prologue().ops;
    let none = Seq::<Op>::empty();
    assert(ops == none.push(ops[0]).push(ops[1]).push(ops[2]).push(ops[3]).push(ops[4]).push(
        ops[5],
    ).push(ops[6]));
    lemma_run_push(m, 0, none, ops[0]);
    lemma_run_push(m, 0, none.push(ops[0]), ops[1]);
    lemma_run_push(m, 0, none.push(ops[0]).push(ops[1]), ops[2]);
    lemma_run_push(m, 0, none.push(ops[0]).push(ops[1]).push(ops[2]), ops[3]);
    lemma_run_push(m, 0, none.push(ops[0]).push(ops[1]).push(ops[2]).push(ops[3]), ops[4]);
    lemma_run_push(
        m,
        0,
        none.push(ops[0]).push(ops[1]).push(ops[2]).push(ops[3]).push(ops[4]),
        ops[5],
    );
    lemma_run_push(
        m,
        0,
        none.push(ops[0]).push(ops[1]).push(ops[2]).push(ops[3]).push(ops[4]).push(ops[5]),
        ops[6],
    );
    assert(m.run(0, none) == m);
}

/// What the requests of `build_add` do when they run: the cell under the
/// cursor gains `amt`, wrapping; nothing else changes.
pub proof fn law_add_effect(m: Machine, n: nat, amt: i32)
    requires
        n + 4 <= usize::MAX,
    ensures
        m.run(n as int, add_ops(n, amt)).same_data(
            Machine { tape: m.tape.insert(m.cursor, byte(m.tape[m.cursor] + amt)), ..m },
        ),
{
    let ops = add_ops(n, amt);
    let none = Seq::<Op>::empty();
    let at = n as int;
    assert(ops == none.push(ops[0]).push(ops[1]).push(ops[2]).push(ops[3]));
    lemma_run_push(m, at, none, ops[0]);
    lemma_run_push(m, at, none.push(ops[0]), ops[1]);
    lemma_run_push(m, at, none.push(ops[0]).push(ops[1]), ops[2]);
    lemma_run_push(m, at, none.push(ops[0]).push(ops[1]).push(ops[2]), ops[3]);
    assert(m.run(at, none) == m);
}

/// What the requests of `build_add_ptr` do when they run: the cursor moves
/// by `amt` cells; nothing else changes.
pub proof fn law_add_ptr_effect(m: Machine, n: nat, amt: i32)
    requires
        n + 3 <= usize::MAX,
    ensures
        m.run(n as int, add_ptr_ops(n, amt)).same_data(Machine { cursor: m.cursor + amt, ..m }),
{
    let ops = add_ptr_ops(n, amt);
    let none = Seq::<Op>::empty();
    let at = n as int;
    assert(ops == none.push(ops[0]).push(ops[1]).push(ops[2]));
    lemma_run_push(m, at, none, ops[0]);
    lemma_run_push(m, at, none.push(ops[0]), ops[1]);
    lemma_run_push(m, at, none.push(ops[0]).push(ops[1]), ops[2]);
    assert(m.run(at, none) == m);
}

/// What the requests of `build_put` do when they run: the cell under the
/// cursor, read as a signed byte, is written; nothing else changes.
pub proof fn law_put_effect(m: Machine, n: nat)
    requires
        n + 4 <= usize::MAX,
    ensures
        m.run(n as int, put_ops(n)).same_data(
            Machine { output: m.output.push(signed(m.tape[m.cursor])), ..m },
        ),
{
    let ops = put_ops(n);
    let none = Seq::<Op>::empty();
    let at = n as int;
    assert(ops == none.push(ops[0]).push(ops[1]).push(ops[2]).push(ops[3]));
    lemma_run_push(m, at, none, ops[0]);
    lemma_run_push(m, at, none.push(ops[0]), ops[1]);
    lemma_run_push(m, at, none.push(ops[0]).push(ops[1]), ops[2]);
    lemma_run_push(m, at, none.push(ops[0]).push(ops[1]).push(ops[2]), ops[3]);
    assert(m.run(at, none) == m);
}

/// What the requests of a successful `build_get` do when they run: the next
/// character leaves the input and its low byte is stored in the cell under
/// the cursor; at the end of the input the cell gets 255, the low byte of
/// -1. Nothing else changes.
pub proof fn law_get_effect(m: Machine, n: nat)
    requires
        n + 4 <= usize::MAX,
    ensures
        m.input.len() > 0 ==> m.run(n as int, get_ops(n)).same_data(
            Machine {
                tape: m.tape.insert(m.cursor, byte(m.input[0])),
                input: m.input.drop_first(),
                ..m
            },
        ),
        m.input.len() == 0 ==> m.run(n as int, get_ops(n)).same_data(
            Machine { tape: m.tape.insert(m.cursor, 255), ..m },
        ),
{
    let ops = get_ops(n);
    let none = Seq::<Op>::empty();
    let at = n as int;
    assert(ops == none.push(ops[0]).push(ops[1]).push(ops[2]).push(ops[3]));
    lemma_run_push(m, at, none, ops[0]);
    lemma_run_push(m, at, none.push(ops[0]), ops[1]);
    lemma_run_push(m, at, none.push(ops[0]).push(ops[1]), ops[2]);
    lemma_run_push(m, at, none.push(ops[0]).push(ops[1]).push(ops[2]), ops[3]);
    assert(m.run(at, none) == m);
}

/// What the requests of `build_while_start` and `build_while_end` do when
/// they run: they decide where control goes, and change nothing that a
/// program can observe.
pub proof fn law_brackets_keep_data(m: Machine, n: nat, blocks: nat, depth: nat, top: WhileBlock)
    ensures
        m.run(n as int, open_ops(n, blocks, depth)).same_data(m),
        m.run(n as int, close_ops(top)).same_data(m),
{
    let at = n as int;
    let none = Seq::<Op>::empty();
    assert(m.run(at, none) == m);
    let ops = open_ops(n, blocks, depth);
    let s1 = none.push(ops[0]);
    let s2 = s1.push(ops[1]);
    let s3 = s2.push(ops[2]);
    let s4 = s3.push(ops[3]);
    let s5 = s4.push(ops[4]);
    let s6 = s5.push(ops[5]);
    let s7 = s6.push(ops[6]);
    let s8 = s7.push(ops[7]);
    let s9 = s8.push(ops[8]);
    assert(ops == s9.push(ops[9]));
    lemma_run_push(m, at, none, ops[0]);
    lemma_run_push(m, at, s1, ops[1]);
    lemma_run_push(m, at, s2, ops[2]);
    lemma_run_push(m, at, s3, ops[3]);
    lemma_run_push(m, at, s4, ops[4]);
    lemma_run_push(m, at, s5, ops[5]);
    lemma_run_push(m, at, s6, ops[6]);
    lemma_run_push(m, at, s7, ops[7]);
    lemma_run_push(m, at, s8, ops[8]);
    lemma_run_push(m, at, s9, ops[9]);
    let closing = close_ops(top);
    assert(closing == none.push(closing[0]).push(closing[1]));
    lemma_run_push(m, at, none, closing[0]);
    lemma_run_push(m, at, none.push(closing[0]), closing[1]);
}

/// The requests made for a source without brackets do, when they run, what
/// the source means: whatever the machine held before, it holds afterwards
/// what the commands, taken one after the other, make of it.
pub proof fn law_straight_line_is_faithful(from: Scan, source: Seq<char>, m: Machine)
    requires
        no_brackets(source),
        from.listing.ops.len() + 4 * source.len() <= usize::MAX,
    ensures
        from.scan(source) matches Some(to) && ({
            &&& to.loops == from.loops
            &&& from.listing.ops.len() <= to.listing.ops.len() <= from.listing.ops.len() + 4
                * source.len()
            &&& outcome(m, from, to).same_data(interpret(m, source))
        }),
    decreases source.len(),
{
    let n = from.listing.ops.len();
    if source.len() == 0 {
        assert(requested(from, from) == Seq::<Op>::empty());
    } else {
        let front = source.drop_last();
        let command = source.last();
        law_straight_line_is_faithful(from, front, m);
        let mid = from.scan(front)->0;
        let to = mid.step(command)->0;
        assert(from.scan(source) == Some(to));
        let at = mid.listing.ops.len();
        let code = requested(from, mid);
        let before = m.run(n as int, code);
        let more = requested(mid, to);
        assert(requested(from, to) == code + more);
        lemma_run_concat(m, n as int, code, more);
        assert(n + code.len() == at);
        if command == '+' {
            assert(more == add_ops(at, 1));
            law_add_effect(before, at, 1i32);
        } else if command == '-' {
            assert(more == add_ops(at, -1i32));
            law_add_effect(before, at, -1i32);
        } else if command == '>' {
            assert(more == add_ptr_ops(at, 1));
            law_add_ptr_effect(before, at, 1i32);
        } else if command == '<' {
            assert(more == add_ptr_ops(at, -1i32));
            law_add_ptr_effect(before, at, -1i32);
        } else if command == '.' {
            assert(more == put_ops(at));
            law_put_effect(before, at);
        } else if command == ',' {
            assert(more == get_ops(at));
            law_get_effect(before, at);
        } else {
            assert(more == Seq::<Op>::empty());
        }
    }
}

/// A loop runs while the current cell is not zero. The branch before a
/// loop goes to the loop's test. The test reads the cell under the cursor:
/// its branch goes into the body if the cell is not zero, and behind the
/// loop if it is zero, whatever the machine held before. The branch at the
/// end of the body goes back to the test.
pub proof fn law_loop_test_decides(m: Machine, n: nat, blocks: nat, depth: nat, top: WhileBlock)
    requires
        n + 8 <= usize::MAX,
        blocks + 2 <= usize::MAX,
    ensures
        ({
            let ops = open_ops(n, blocks, depth);
            let tested = m.run(n as int, ops.take(8));
            &&& m.target(ops[3]) == Some(blocks)
            &&& tested.same_data(m)
            &&& tested.target(ops[8]) == Some(
                if byte(m.tape[m.cursor]) != 0 {
                    blocks + 1
                } else {
                    blocks + 2
                },
            )
        }),
        m.target(close_ops(top)[0]) == Some(top.while_start as nat),
{
    let at = n as int;
    let none = Seq::<Op>::empty();
    assert(m.run(at, none) == m);
    let ops = open_ops(n, blocks, depth);
    let s1 = none.push(ops[0]);
    let s2 = s1.push(ops[1]);
    let s3 = s2.push(ops[2]);
    let s4 = s3.push(ops[3]);
    let s5 = s4.push(ops[4]);
    let s6 = s5.push(ops[5]);
    let s7 = s6.push(ops[6]);
    assert(ops.take(8) == s7.push(ops[7]));
    lemma_run_push(m, at, none, ops[0]);
    lemma_run_push(m, at, s1, ops[1]);
    lemma_run_push(m, at, s2, ops[2]);
    lemma_run_push(m, at, s3, ops[3]);
    lemma_run_push(m, at, s4, ops[4]);
    lemma_run_push(m, at, s5, ops[5]);
    lemma_run_push(m, at, s6, ops[6]);
    lemma_run_push(m, at, s7, ops[7]);
}

/// The stack of open loops is as deep as the brackets say: a compilation
/// meets a `]` with no loop open exactly if, in some prefix of the source,
/// the `]` outnumber the `[` by more than the number of loops that were open
/// at the start; if it meets none, it ends with as many loops open as it
/// began with, plus the `[`, less the `]`.
pub proof fn law_stack_depth(from: Scan, source: Seq<char>)
    ensures
        from.scan(source) is Some <==> forall|k: int|
            0 <= k <= source.len() ==> from.loops.len() + depth(#[trigger] source.take(k)) >= 0,
        from.scan(source) matches Some(to) ==> to.loops.len() == from.loops.len() + depth(source),
    decreases source.len(),
{
    if source.len() == 0 {
        assert forall|k: int| 0 <= k <= source.len() implies from.loops.len() + depth(
            #[trigger] source.take(k),
        ) >= 0 by {
            assert(source.take(k) == source);
        }
    } else {
        let front = source.drop_last();
        law_stack_depth(from, front);
        assert(source.take(source.len() as int) == source);
        assert(source.take(source.len() - 1) == front);
        if from.scan(front) is Some {
            assert forall|k: int| 0 <= k <= front.len() implies from.loops.len() + depth(
                #[trigger] source.take(k),
            ) >= 0 by {
                assert(source.take(k) == front.take(k));
            }
        } else {
            let k = choose|k: int|
                0 <= k <= front.len() && !(from.loops.len() + depth(#[trigger] front.take(k)) >= 0);
            assert(source.take(k) == front.take(k));
        }
    }
}

/// On a well-formed program the compilation meets no unmatched `]`, there
/// are as many `[` as `]`, and no loop is open when the scan ends.
pub proof fn law_balanced_ends_closed(source: Seq<char>)
    requires
        balanced(source),
    ensures
        start().scan(source) matches Some(end) && end.loops.len() == 0,
        count(source, '[') == count(source, ']'),
{
    law_stack_depth(start(), source);
}

/// On any program that has no unmatched `]`, the compilation ends with no
/// loop open exactly if the program has as many `[` as `]`.
pub proof fn law_stack_empty_iff_balanced(source: Seq<char>)
    requires
        closes_matched(source),
    ensures
        start().scan(source) matches Some(end) && (end.loops.len() == 0 <==> count(source, '[')
            == count(source, ']')),
{
    law_stack_depth(start(), source);
}

/// A run of `+` and `-` does to the tape what one wrapping addition of
/// their net amount does: the cell under the cursor gains the number of `+`
/// less the number of `-`, modulo 256, and nothing else changes. So any two
/// such runs whose net amounts agree modulo 256 do the same.
pub proof fn law_additions_accumulate(from: Scan, source: Seq<char>, m: Machine)
    requires
        only_additions(source),
        from.listing.ops.len() + 4 * source.len() <= usize::MAX,
    ensures
        from.scan(source) matches Some(to) && ({
            let after = outcome(m, from, to);
            let net = count(source, '+') - count(source, '-');
            &&& to.loops == from.loops
            &&& to.listing.ops.len() == from.listing.ops.len() + 4 * source.len()
            &&& from.listing.ops.is_prefix_of(to.listing.ops)
            &&& source.len() > 0 ==> after.same_data(
                Machine { tape: m.tape.insert(m.cursor, byte(m.tape[m.cursor] + net)), ..m },
            )
            &&& source.len() == 0 ==> after.same_data(m)
        }),
    decreases source.len(),
{
    let n = from.listing.ops.len();
    if source.len() == 0 {
        assert(requested(from, from) == Seq::<Op>::empty());
    } else {
        let front = source.drop_last();
        law_additions_accumulate(from, front, m);
        let mid = from.scan(front)->0;
        let amt: i32 = if source.last() == '+' {
            1i32
        } else {
            -1i32
        };
        let to = mid.extend(add_ops(mid.listing.ops.len(), amt));
        assert(from.scan(source) == Some(to));
        let before = m.run(n as int, requested(from, mid));
        assert(requested(from, to) == requested(from, mid) + add_ops(mid.listing.ops.len(), amt));
        lemma_run_concat(m, n as int, requested(from, mid), add_ops(mid.listing.ops.len(), amt));
        law_add_effect(before, mid.listing.ops.len(), amt);
        let net_front = count(front, '+') - count(front, '-');
        let cell = m.tape[m.cursor];
        if front.len() > 0 {
            assert(byte(byte(cell + net_front) + amt) == byte(cell + net_front + amt));
            assert(m.tape.insert(m.cursor, byte(cell + net_front)).insert(
                m.cursor,
                byte(cell + net_front + amt),
            ) == m.tape.insert(m.cursor, byte(cell + net_front + amt)));
        }
    }
}

/// One `build_add` of an amount that agrees modulo 256 with the net amount
/// of a run of `+` and `-` does what the run does: 257 times `+` is one `+`.
pub proof fn law_additions_are_one_addition(from: Scan, source: Seq<char>, m: Machine, amt: i32)
    requires
        only_additions(source),
        source.len() > 0,
        from.listing.ops.len() + 4 * source.len() <= usize::MAX,
        byte(amt as int) == byte(count(source, '+') - count(source, '-')),
    ensures
        from.scan(source) matches Some(to) && outcome(m, from, to).same_data(
            m.run(from.listing.ops.len() as int, add_ops(from.listing.ops.len(), amt)),
        ),
{
    law_additions_accumulate(from, source, m);
    law_add_effect(m, from.listing.ops.len(), amt);
    let net = count(source, '+') - count(source, '-');
    let cell = m.tape[m.cursor];
    assert(byte(cell + amt) == byte(cell + net));
}

/// A run of `>` and `<` moves the cursor by the number of `>` less the
/// number of `<`, and changes nothing else.
pub proof fn law_moves_accumulate(from: Scan, source: Seq<char>, m: Machine)
    requires
        only_moves(source),
        from.listing.ops.len() + 3 * source.len() <= usize::MAX,
    ensures
        from.scan(source) matches Some(to) && ({
            let after = outcome(m, from, to);
            &&& to.loops == from.loops
            &&& to.listing.ops.len() == from.listing.ops.len() + 3 * source.len()
            &&& after.same_data(
                Machine { cursor: m.cursor + count(source, '>') - count(source, '<'), ..m },
            )
        }),
    decreases source.len(),
{
    if source.len() == 0 {
        assert(requested(from, from) == Seq::<Op>::empty());
    } else {
        let front = source.drop_last();
        law_moves_accumulate(from, front, m);
        let mid = from.scan(front)->0;
        let amt: i32 = if source.last() == '>' {
            1i32
        } else {
            -1i32
        };
        let to = mid.extend(add_ptr_ops(mid.listing.ops.len(), amt));
        assert(from.scan(source) == Some(to));
        let n = from.listing.ops.len();
        let before = m.run(n as int, requested(from, mid));
        assert(requested(from, to) == requested(from, mid) + add_ptr_ops(
            mid.listing.ops.len(),
            amt,
        ));
        lemma_run_concat(
            m,
            n as int,
            requested(from, mid),
            add_ptr_ops(mid.listing.ops.len(), amt),
        );
        law_add_ptr_effect(before, mid.listing.ops.len(), amt);
    }
}

/// `><` and `<>` leave the cursor where it was, and change nothing else.
pub proof fn law_move_pairs_cancel(from: Scan, m: Machine)
    requires
        from.listing.ops.len() + 6 <= usize::MAX,
    ensures
        from.scan(seq!['>', '<']) matches Some(to) && outcome(m, from, to).same_data(m),
        from.scan(seq!['<', '>']) matches Some(to) && outcome(m, from, to).same_data(m),
{
    let right_left = seq!['>', '<'];
    let left_right = seq!['<', '>'];
    assert(right_left.drop_last() == seq!['>']);
    assert(left_right.drop_last() == seq!['<']);
    assert(seq!['>'].drop_last() == Seq::<char>::empty());
    assert(seq!['<'].drop_last() == Seq::<char>::empty());
    reveal_with_fuel(count, 3);
    assert(count(right_left, '>') == 1 && count(right_left, '<') == 1);
    assert(count(left_right, '>') == 1 && count(left_right, '<') == 1);
    law_moves_accumulate(from, right_left, m);
    law_moves_accumulate(from, left_right, m);
}

} // verus!
