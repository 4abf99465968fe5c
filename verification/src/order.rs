//! The order of a report: a higher sort key comes first, and among equal
//! keys whoever came first in the input stays first.
//!
//! The order is stated through the place that each input ends up at, which is
//! the number of inputs that come before it.

use vstd::prelude::*;

verus! {

/// Whether the input at place `j` comes before the input at place `i`: its
/// key is higher, or the keys are equal and `j` is the earlier place.
pub open spec fn precedes(keys: Seq<int>, j: int, i: int) -> bool {
    keys[j] > keys[i] || (keys[j] == keys[i] && j < i)
}

/// How many of the first `n` inputs come before the input at place `i`.
pub open spec fn preceding(keys: Seq<int>, i: int, n: int) -> int
    decreases n,
{
    if n <= 0 {
        0
    } else {
        preceding(keys, i, n - 1) + if precedes(keys, n - 1, i) {
            1int
        } else {
            0int
        }
    }
}

/// The place in the ordered output of the input at place `i`.
pub open spec fn position(keys: Seq<int>, i: int) -> int {
    preceding(keys, i, keys.len() as int)
}

/// Among the first `n` inputs, fewer come before `i` than before `j` when `i`
/// itself comes before `j`: whatever precedes `i` precedes `j` too, and so
/// does `i` once `n` is past it.
pub proof fn lemma_preceding_is_monotone(keys: Seq<int>, i: int, j: int, n: int)
    requires
        precedes(keys, i, j),
        0 <= i,
        0 <= n,
    ensures
        preceding(keys, i, n) + (if i < n {
            1int
        } else {
            0int
        }) <= preceding(keys, j, n),
    decreases n,
{
    if n > 0 {
        lemma_preceding_is_monotone(keys, i, j, n - 1);
    }
}

/// Fewer than `n` of the first `n` inputs come before one of them.
pub proof fn lemma_preceding_in_range(keys: Seq<int>, i: int, n: int)
    requires
        0 <= n,
    ensures
        0 <= preceding(keys, i, n) <= n,
        0 <= i < n ==> preceding(keys, i, n) < n,
    decreases n,
{
    if n > 0 {
        lemma_preceding_in_range(keys, i, n - 1);
    }
}

/// Every input gets a place inside the output.
pub proof fn lemma_position_in_range(keys: Seq<int>, i: int)
    requires
        0 <= i < keys.len(),
    ensures
        0 <= position(keys, i) < keys.len(),
{
    lemma_preceding_in_range(keys, i, keys.len() as int);
}

/// Of two different inputs, the one that comes before the other gets the
/// smaller place: a higher key goes first, and equal keys keep their input
/// order. In particular no two inputs share a place.
pub proof fn lemma_position_follows_order(keys: Seq<int>, i: int, j: int)
    requires
        0 <= i < keys.len(),
        0 <= j < keys.len(),
        i != j,
    ensures
        position(keys, i) < position(keys, j) <==> precedes(keys, i, j),
        position(keys, i) != position(keys, j),
{
    if precedes(keys, i, j) {
        lemma_preceding_is_monotone(keys, i, j, keys.len() as int);
    } else {
        assert(precedes(keys, j, i));
        lemma_preceding_is_monotone(keys, j, i, keys.len() as int);
    }
}

/// Among the first `n` inputs there is one, and `source` is it, before which
/// exactly `place` of them come.
pub proof fn lemma_place_is_taken(keys: Seq<int>, n: int, place: int) -> (source: int)
    requires
        0 <= place < n,
    ensures
        0 <= source < n,
        preceding(keys, source, n) == place,
    decreases n,
{
    let newest = n - 1;
    let taken = preceding(keys, newest, newest);
    lemma_preceding_in_range(keys, newest, newest);
    if place == taken {
        newest
    } else if place < taken {
        let source = lemma_place_is_taken(keys, newest, place);
        if precedes(keys, newest, source) {
            lemma_preceding_is_monotone(keys, newest, source, newest);
        }
        source
    } else {
        let source = lemma_place_is_taken(keys, newest, place - 1);
        if !precedes(keys, newest, source) {
            assert(precedes(keys, source, newest));
            lemma_preceding_is_monotone(keys, source, newest, newest);
        }
        source
    }
}

/// Every place of the output is the place of some input: together with
/// `lemma_position_follows_order`, the places are a permutation of the inputs.
pub proof fn lemma_position_is_onto(keys: Seq<int>, place: int) -> (source: int)
    requires
        0 <= place < keys.len(),
    ensures
        0 <= source < keys.len(),
        position(keys, source) == place,
{
    lemma_place_is_taken(keys, keys.len() as int, place)
}

} // verus!
