//! How the brackets of a source are wired into blocks: every `]` branches
//! back to the test of the loop that its own `[` opened, and goes on behind
//! that loop.
use crate::driver::place;
use crate::driver::start;
use crate::driver::state_at;
use crate::driver::Scan;
use crate::instructions::close_ops;
use crate::instructions::open_ops;
use crate::instructions::WhileBlock;
use crate::ir::Op;
use crate::source::opener;
use crate::source::origins;
use vstd::prelude::*;

verus! {

/// The three blocks of a loop of which the first is block `first`.
pub open spec fn loop_blocks(first: nat) -> WhileBlock {
    WhileBlock {
        while_start: first as usize,
        while_body: (first + 1) as usize,
        while_end: (first + 2) as usize,
    }
}

/// A compilation that gets through a source gets through each part of it
/// that comes first.
pub proof fn lemma_scan_prefix(from: Scan, source: Seq<char>, k: int)
    requires
        0 <= k <= source.len(),
        from.scan(source) is Some,
    ensures
        from.scan(source.take(k)) is Some,
    decreases source.len() - k,
{
    if k < source.len() {
        lemma_scan_prefix(from, source, k + 1);
        assert(source.take(k + 1).drop_last() == source.take(k));
    } else {
        assert(source.take(k) == source);
    }
}

/// One step only adds requests and blocks.
pub proof fn lemma_step_grows(before: Scan, command: char)
    requires
        before.step(command) is Some,
    ensures
        before.listing.ops.is_prefix_of(before.step(command)->0.listing.ops),
        before.listing.blocks <= before.step(command)->0.listing.blocks,
{
}

/// What was requested up to a position of the source stays as it is to the
/// end, and so do the blocks.
pub proof fn lemma_requests_stay(source: Seq<char>, k: int, later: int)
    requires
        0 <= k <= later <= source.len(),
        start().scan(source.take(later)) is Some,
    ensures
        start().scan(source.take(k)) is Some,
        state_at(source, k).listing.ops.is_prefix_of(state_at(source, later).listing.ops),
        state_at(source, k).listing.blocks <= state_at(source, later).listing.blocks,
    decreases later - k,
{
    assert(source.take(later).take(k) == source.take(k));
    lemma_scan_prefix(start(), source.take(later), k);
    if k < later {
        assert(source.take(later).take(later - 1) == source.take(later - 1));
        lemma_scan_prefix(start(), source.take(later), later - 1);
        lemma_requests_stay(source, k, later - 1);
        assert(source.take(later).drop_last() == source.take(later - 1));
        lemma_step_grows(state_at(source, later - 1), source[later - 1]);
    }
}

/// The stack of open loops mirrors the brackets: its loops are those of the
/// `[` that are open, in the same order, each with the three blocks that
/// were made when its `[` was met.
pub proof fn law_stack_mirrors_brackets(source: Seq<char>, k: int)
    requires
        0 <= k <= source.len(),
        start().scan(source.take(k)) is Some,
        state_at(source, k).listing.blocks <= usize::MAX,
    ensures
        state_at(source, k).loops.len() == origins(source.take(k)).len(),
        forall|i: int|
            0 <= i < origins(source.take(k)).len() ==> {
                let open = #[trigger] origins(source.take(k))[i];
                &&& 0 <= open < k
                &&& source[open] == '['
                &&& state_at(source, k).loops[i] == loop_blocks(
                    state_at(source, open).listing.blocks,
                )
            },
    decreases k,
{
    if k > 0 {
        let front = source.take(k - 1);
        assert(source.take(k).drop_last() == front);
        lemma_requests_stay(source, k - 1, k);
        law_stack_mirrors_brackets(source, k - 1);
        let before = state_at(source, k - 1);
        let after = state_at(source, k);
        let command = source[k - 1];
        assert(source.take(k).last() == command);
        assert(after == before.step(command)->0);
        let opens = origins(source.take(k));
        let opens_before = origins(front);
        assert forall|i: int| 0 <= i < opens.len() implies {
            let open = #[trigger] opens[i];
            &&& 0 <= open < k
            &&& source[open] == '['
            &&& after.loops[i] == loop_blocks(state_at(source, open).listing.blocks)
        } by {
            if command == '[' {
                if i > 0 {
                    assert(opens[i] == opens_before[i - 1]);
                    assert(after.loops[i] == before.loops[i - 1]);
                }
            } else if command == ']' {
                assert(opens[i] == opens_before[i + 1]);
                assert(after.loops[i] == before.loops[i + 1]);
            } else {
                assert(opens[i] == opens_before[i]);
            }
        }
    }
}

/// The requests for the character at position `k` stand in the listing of
/// the whole source where they were made.
pub proof fn lemma_requests_placed(source: Seq<char>, k: int)
    requires
        0 <= k < source.len(),
        start().scan(source) is Some,
    ensures
        start().scan(source.take(k)) is Some,
        state_at(source, k).step(source[k]) == Some(state_at(source, k + 1)),
        place(source, k) <= place(source, k + 1) <= place(source, source.len() as int),
        state_at(source, source.len() as int).listing.ops.subrange(
            place(source, k),
            place(source, k + 1),
        ) == state_at(source, k + 1).listing.ops.skip(place(source, k)),
{
    assert(source.take(source.len() as int) == source);
    lemma_requests_stay(source, k + 1, source.len() as int);
    lemma_requests_stay(source, k, k + 1);
    assert(source.take(k + 1).drop_last() == source.take(k));
    assert(source.take(k + 1).last() == source[k]);
}

/// Every `]` is wired to the loop of its own `[`: where the `[` stands in
/// the source, the listing opens a loop; where the `]` stands, the listing
/// branches back to the test of that loop and goes on in its exit.
pub proof fn law_close_returns_to_its_open(source: Seq<char>, close: int)
    requires
        0 <= close < source.len(),
        source[close] == ']',
        start().scan(source) is Some,
        state_at(source, source.len() as int).listing.blocks <= usize::MAX,
    ensures
        ({
            let open = opener(source, close);
            let first = state_at(source, open).listing.blocks;
            let listing = state_at(source, source.len() as int).listing;
            &&& 0 <= open < close
            &&& source[open] == '['
            &&& listing.ops.subrange(place(source, open), place(source, open) + 10) == open_ops(
                place(source, open) as nat,
                first,
                state_at(source, open).loops.len(),
            )
            &&& listing.ops.subrange(place(source, close), place(source, close) + 2) == close_ops(
                loop_blocks(first),
            )
        }),
{
    let end = source.len() as int;
    assert(source.take(end) == source);
    lemma_requests_placed(source, close);
    lemma_requests_stay(source, close, end);
    law_stack_mirrors_brackets(source, close);
    let open = opener(source, close);
    assert(open == origins(source.take(close))[0]);
    lemma_requests_placed(source, open);
    let opened = state_at(source, open + 1).listing.ops.skip(place(source, open));
    assert(opened == open_ops(
        place(source, open) as nat,
        state_at(source, open).listing.blocks,
        state_at(source, open).loops.len(),
    ));
    let closed = state_at(source, close + 1).listing.ops.skip(place(source, close));
    assert(closed == close_ops(state_at(source, close).loops[0]));
}

} // verus!
