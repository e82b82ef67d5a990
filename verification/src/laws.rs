//! Laws of the matching engine, stated and proved once for all inputs.

use crate::matcher::{is_first_match, regex_match, some_match};
use vstd::prelude::*;

verus! {

/// Cursor monotonicity: the texts returned by two consecutive successful
/// attempts on one engine tile the consumed stream with no duplication and
/// no gap at the boundary.
///
/// `c1` is the stream consumed when the first attempt matched, `c2` the
/// (extended) stream when the second did; `from` is where the first attempt
/// began. Each match returns exactly the tail of the stream from its
/// attempt's origin, so the two texts concatenate to the contiguous
/// segment of the stream from `from` to its end.
pub proof fn lemma_cursor_monotonic(
    c1: Seq<char>,
    c2: Seq<char>,
    from: int,
    t1: Seq<char>,
    t2: Seq<char>,
)
    requires
        0 <= from <= c1.len() <= c2.len(),
        c1 == c2.take(c1.len() as int),
        t1 == c1.skip(from),
        t2 == c2.skip(c1.len() as int),
    ensures
        t1 + t2 == c2.skip(from),
{
    assert(t1 + t2 =~= c2.skip(from));
}

/// An empty pattern list is never satisfied by any text: an attempt begun
/// with no patterns can only end by timeout or by a read failure.
pub proof fn lemma_empty_patterns_never_match(text: Seq<char>)
    ensures
        !some_match(Seq::<Seq<char>>::empty(), text),
{
}

/// Tie-break: when several patterns are satisfied at the same moment, the
/// reported index is the lowest position in the caller-supplied list — a
/// list-order tie-break, not a position-in-text one.
pub proof fn lemma_first_match_is_least(
    patterns: Seq<Seq<char>>,
    text: Seq<char>,
    i: int,
    j: int,
)
    requires
        is_first_match(patterns, text, i),
        0 <= j < patterns.len(),
        regex_match(patterns[j], text),
    ensures
        i <= j,
{
}

} // verus!
