//! Predicates on Brainfuck sources.
use vstd::prelude::*;

verus! {

/// How often a character occurs in a source.
pub open spec fn count(source: Seq<char>, c: char) -> nat
    decreases source.len(),
{
    if source.len() == 0 {
        0
    } else if source.last() == c {
        count(source.drop_last(), c) + 1
    } else {
        count(source.drop_last(), c)
    }
}

/// The number of `[` less the number of `]`.
pub open spec fn depth(source: Seq<char>) -> int {
    count(source, '[') - count(source, ']')
}

/// No `]` comes without a `[` before it that is still open.
pub open spec fn closes_matched(source: Seq<char>) -> bool {
    forall|k: int| 0 <= k <= source.len() ==> depth(#[trigger] source.take(k)) >= 0
}

/// Every `]` closes a `[` and every `[` is closed.
pub open spec fn balanced(source: Seq<char>) -> bool {
    closes_matched(source) && depth(source) == 0
}

/// The positions of the `[` that are open at the end of a source, the
/// innermost first.
pub open spec fn origins(source: Seq<char>) -> Seq<int>
    decreases source.len(),
{
    if source.len() == 0 {
        Seq::empty()
    } else {
        let before = origins(source.drop_last());
        if source.last() == '[' {
            seq![source.len() - 1] + before
        } else if source.last() == ']' && before.len() > 0 {
            before.drop_first()
        } else {
            before
        }
    }
}

/// The position of the `[` that the `]` at position `close` closes.
pub open spec fn opener(source: Seq<char>, close: int) -> int {
    origins(source.take(close))[0]
}

/// The `]` at position `close` closes the `[` at position `open`.
pub open spec fn closes(source: Seq<char>, open: int, close: int) -> bool {
    open < close < source.len() && source[close] == ']' && opener(source, close) == open
}

/// The position of the `]` that closes the `[` at position `open`.
pub open spec fn closer(source: Seq<char>, open: int) -> int {
    choose|close: int| closes(source, open, close)
}

/// A source of `+` and `-` only.
pub open spec fn only_additions(source: Seq<char>) -> bool {
    forall|i: int| 0 <= i < source.len() ==> source[i] == '+' || source[i] == '-'
}

/// A source of `>` and `<` only.
pub open spec fn only_moves(source: Seq<char>) -> bool {
    forall|i: int| 0 <= i < source.len() ==> source[i] == '>' || source[i] == '<'
}

/// A source without brackets.
pub open spec fn no_brackets(source: Seq<char>) -> bool {
    forall|i: int| 0 <= i < source.len() ==> source[i] != '[' && source[i] != ']'
}

/// Where no `]` comes unmatched, as many `[` are open as the brackets
/// count.
pub proof fn lemma_origins_depth(source: Seq<char>)
    requires
        closes_matched(source),
    ensures
        origins(source).len() == depth(source),
    decreases source.len(),
{
    assert(source.take(source.len() as int) == source);
    if source.len() > 0 {
        let front = source.drop_last();
        assert forall|k: int| 0 <= k <= front.len() implies depth(#[trigger] front.take(k))
            >= 0 by {
            assert(front.take(k) == source.take(k));
        }
        lemma_origins_depth(front);
    }
}

/// The `[` that are open stand in the source.
pub proof fn lemma_origins_below(source: Seq<char>)
    ensures
        forall|i: int|
            0 <= i < origins(source).len() ==> 0 <= #[trigger] origins(source)[i] < source.len(),
    decreases source.len(),
{
    if source.len() > 0 {
        let before = origins(source.drop_last());
        lemma_origins_below(source.drop_last());
        assert forall|i: int| 0 <= i < origins(source).len() implies 0 <= #[trigger] origins(
            source,
        )[i] < source.len() by {
            if source.last() == '[' {
                if i > 0 {
                    assert(origins(source)[i] == before[i - 1]);
                }
            } else if source.last() == ']' && before.len() > 0 {
                assert(origins(source)[i] == before[i + 1]);
            } else {
                assert(origins(source)[i] == before[i]);
            }
        }
    }
}

/// A `[` that is open at no time up to a position behind it has been closed
/// before that position.
proof fn lemma_find_close(source: Seq<char>, open: int, behind: int)
    requires
        0 <= open < behind <= source.len(),
        source[open] == '[',
        !origins(source.take(behind)).contains(open),
    ensures
        exists|close: int| closes(source, open, close),
    decreases behind,
{
    let now = source.take(behind);
    let front = source.take(behind - 1);
    assert(now.drop_last() == front);
    assert(now.last() == source[behind - 1]);
    let before = origins(front);
    lemma_origins_below(front);
    if before.contains(open) {
        let i = choose|i: int| 0 <= i < before.len() && before[i] == open;
        if now.last() == '[' {
            assert(origins(now)[i + 1] == open);
        } else if now.last() == ']' {
            if i > 0 {
                assert(origins(now)[i - 1] == open);
            }
            assert(closes(source, open, behind - 1));
        } else {
            assert(origins(now)[i] == open);
        }
    } else {
        if behind - 1 == open {
            assert(origins(now)[0] == open);
        } else {
            lemma_find_close(source, open, behind - 1);
        }
    }
}

/// In a balanced source every `[` has its `]`.
pub proof fn lemma_closer_exists(source: Seq<char>, open: int)
    requires
        balanced(source),
        0 <= open < source.len(),
        source[open] == '[',
    ensures
        closes(source, open, closer(source, open)),
{
    lemma_origins_depth(source);
    assert(source.take(source.len() as int) == source);
    lemma_find_close(source, open, source.len() as int);
}

} // verus!
