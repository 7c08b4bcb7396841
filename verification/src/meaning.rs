//! What a source means: its commands carried out on the tape machine, with
//! no listing in between. This is what the compiled program is held to.
use crate::machine::byte;
use crate::machine::signed;
use crate::machine::Machine;
use crate::source::closer;
use crate::source::closes;
use crate::source::opener;
use crate::source::origins;
use vstd::prelude::*;

verus! {

/// What a command other than a bracket means for a running program.
pub open spec fn meaning(m: Machine, command: char) -> Machine {
    if command == '+' {
        Machine { tape: m.tape.insert(m.cursor, byte(m.tape[m.cursor] + 1)), ..m }
    } else if command == '-' {
        Machine { tape: m.tape.insert(m.cursor, byte(m.tape[m.cursor] - 1)), ..m }
    } else if command == '>' {
        Machine { cursor: m.cursor + 1, ..m }
    } else if command == '<' {
        Machine { cursor: m.cursor - 1, ..m }
    } else if command == '.' {
        Machine { output: m.output.push(signed(m.tape[m.cursor])), ..m }
    } else if command == ',' {
        if m.input.len() > 0 {
            Machine {
                tape: m.tape.insert(m.cursor, byte(m.input[0])),
                input: m.input.drop_first(),
                ..m
            }
        } else {
            Machine { tape: m.tape.insert(m.cursor, 255), ..m }
        }
    } else {
        m
    }
}

/// What a source without brackets means for a running program: the
/// meanings of its commands, one after the other.
pub open spec fn interpret(m: Machine, source: Seq<char>) -> Machine
    decreases source.len(),
{
    if source.len() == 0 {
        m
    } else {
        meaning(interpret(m, source.drop_last()), source.last())
    }
}

/// A source being carried out: what the machine holds, and the position of
/// the command that comes next. A source is done when that position is its
/// length.
pub struct Reading {
    pub machine: Machine,
    pub at: int,
}

/// The source carried out by one command. A `[` goes behind its `]` if the
/// current cell is zero, a `]` goes back behind its `[` if it is not;
/// every other command does what it means and the next one follows.
pub open spec fn advance(source: Seq<char>, r: Reading) -> Reading {
    if 0 <= r.at < source.len() {
        let command = source[r.at];
        let zero = byte(r.machine.tape[r.machine.cursor]) == 0;
        if command == '[' {
            Reading {
                at: if zero {
                    closer(source, r.at) + 1
                } else {
                    r.at + 1
                },
                ..r
            }
        } else if command == ']' {
            Reading {
                at: if zero {
                    r.at + 1
                } else {
                    opener(source, r.at) + 1
                },
                ..r
            }
        } else {
            Reading { machine: meaning(r.machine, command), at: r.at + 1 }
        }
    } else {
        r
    }
}

/// The source carried out by `n` commands.
pub open spec fn advances(source: Seq<char>, r: Reading, n: nat) -> Reading
    decreases n,
{
    if n == 0 {
        r
    } else {
        advance(source, advances(source, r, (n - 1) as nat))
    }
}

/// Carrying out `a` commands and then `b` is carrying out `a + b`.
pub proof fn lemma_advances_add(source: Seq<char>, r: Reading, a: nat, b: nat)
    ensures
        advances(source, r, a + b) == advances(source, advances(source, r, a), b),
    decreases b,
{
    if b > 0 {
        lemma_advances_add(source, r, a, (b - 1) as nat);
        assert((a + b - 1) as nat == a + (b - 1) as nat);
    }
}

/// The source `[-]`.
pub open spec fn clear_loop() -> Seq<char> {
    seq!['[', '-', ']']
}

/// In `[-]` the brackets belong to each other.
proof fn lemma_clear_loop_brackets()
    ensures
        opener(clear_loop(), 2) == 0,
        closer(clear_loop(), 0) == 2,
{
    let source = clear_loop();
    let two = source.take(2);
    assert(two.drop_last() == seq!['[']);
    assert(seq!['['].drop_last() == Seq::<char>::empty());
    reveal_with_fuel(origins, 3);
    assert(origins(two) == seq![0int]);
    assert(closes(source, 0, 2));
}

/// Inside `[-]`, with a cell that holds `v`, not zero: after `v` times `-`
/// and `]` the cell holds zero and the loop is left, not before.
proof fn lemma_clear_loop_counts_down(m: Machine, v: nat)
    requires
        0 < v < 256,
        m.tape[m.cursor] == v,
    ensures
        ({
            let done = advances(clear_loop(), Reading { machine: m, at: 1 }, 2 * v);
            &&& done.at == 3
            &&& done.machine == Machine { tape: m.tape.insert(m.cursor, 0), ..m }
        }),
        forall|n: nat| n < 2 * v ==> (#[trigger] advances(
            clear_loop(),
            Reading { machine: m, at: 1 },
            n,
        )).at < 3,
    decreases v,
{
    let source = clear_loop();
    let r = Reading { machine: m, at: 1 };
    lemma_clear_loop_brackets();
    let less = Machine { tape: m.tape.insert(m.cursor, byte(m.tape[m.cursor] - 1)), ..m };
    let r1 = advance(source, r);
    let r2 = advance(source, r1);
    assert(advances(source, r, 0) == r);
    assert(advances(source, r, 1) == r1);
    assert(advances(source, r, 2) == r2);
    assert(r1 == Reading { machine: less, at: 2 });
    if v == 1 {
        assert(r2 == Reading { machine: less, at: 3 });
        assert forall|n: nat| n < 2 * v implies (#[trigger] advances(source, r, n)).at < 3 by {
            assert(n == 0 || n == 1);
        }
    } else {
        assert(r2 == Reading { machine: less, at: 1 });
        lemma_clear_loop_counts_down(less, (v - 1) as nat);
        lemma_advances_add(source, r, 2, (2 * (v - 1)) as nat);
        assert(less.tape.insert(less.cursor, 0) == m.tape.insert(m.cursor, 0));
        assert forall|n: nat| n < 2 * v implies (#[trigger] advances(source, r, n)).at < 3 by {
            if n >= 2 {
                lemma_advances_add(source, r, 2, (n - 2) as nat);
                assert(advances(source, r2, (n - 2) as nat).at < 3);
            } else {
                assert(n == 0 || n == 1);
            }
        }
    }
}

/// `[-]` clears the current cell: if the cell holds zero the loop is not
/// entered; if it holds `v`, the cell is decremented `v` times, to exactly
/// zero, and then the loop is left for good. Nothing else changes.
pub proof fn law_clear_loop_empties_the_cell(m: Machine, v: nat)
    requires
        v < 256,
        m.tape[m.cursor] == v,
    ensures
        ({
            let done = advances(clear_loop(), Reading { machine: m, at: 0 }, 1 + 2 * v);
            &&& done.at == 3
            &&& done.machine.tape[m.cursor] == 0
            &&& v > 0 ==> done.machine == Machine { tape: m.tape.insert(m.cursor, 0), ..m }
            &&& v == 0 ==> done.machine == m
        }),
        forall|n: nat| n < 1 + 2 * v ==> (#[trigger] advances(
            clear_loop(),
            Reading { machine: m, at: 0 },
            n,
        )).at < 3,
        forall|n: nat| n >= 1 + 2 * v ==> (#[trigger] advances(
            clear_loop(),
            Reading { machine: m, at: 0 },
            n,
        )).at == 3,
{
    let source = clear_loop();
    let r = Reading { machine: m, at: 0 };
    lemma_clear_loop_brackets();
    let r1 = advance(source, r);
    assert(advances(source, r, 0) == r);
    assert(advances(source, r, 1) == r1);
    if v > 0 {
        assert(r1 == Reading { machine: m, at: 1 });
        lemma_clear_loop_counts_down(m, v);
        lemma_advances_add(source, r, 1, 2 * v);
        assert forall|n: nat| n < 1 + 2 * v implies (#[trigger] advances(source, r, n)).at < 3 by {
            if n >= 1 {
                lemma_advances_add(source, r, 1, (n - 1) as nat);
                assert(advances(source, r1, (n - 1) as nat).at < 3);
            }
        }
    } else {
        assert(r1 == Reading { machine: m, at: 3 });
    }
    let done = advances(source, r, 1 + 2 * v);
    assert forall|n: nat| n >= 1 + 2 * v implies (#[trigger] advances(source, r, n)).at == 3 by {
        lemma_advances_add(source, r, 1 + 2 * v, (n - (1 + 2 * v)) as nat);
        lemma_done_stays(source, done, (n - (1 + 2 * v)) as nat);
    }
}

/// A source that is done stays done.
pub proof fn lemma_done_stays(source: Seq<char>, r: Reading, n: nat)
    requires
        r.at == source.len(),
    ensures
        advances(source, r, n) == r,
    decreases n,
{
    if n > 0 {
        lemma_done_stays(source, r, (n - 1) as nat);
    }
}

} // verus!
