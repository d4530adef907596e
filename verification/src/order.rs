//! The order in which a search pass meets the addresses on the wire.
//!
//! A pass reads addresses bit by bit from the lowest bit up and takes the
//! zero branch first wherever devices disagree. One address is therefore met
//! before another when, at the lowest bit in which the two differ, it has
//! the zero.

use vstd::prelude::*;
use crate::bits::{bit_of, lemma_bits_determine};

verus! {

/// `a` and `b` have the same bits below position `n`.
pub open spec fn same_prefix(a: u64, b: u64, n: int) -> bool {
    forall|j: int| 0 <= j < n ==> bit_of(a, j) == bit_of(b, j)
}

/// `a` and `b` part ways at position `i`, `a` towards zero and `b` towards
/// one.
pub open spec fn branches_at(a: u64, b: u64, i: int) -> bool {
    0 <= i < 64 && same_prefix(a, b, i) && !bit_of(a, i) && bit_of(b, i)
}

/// `a` comes before `b` in search order.
pub open spec fn precedes(a: u64, b: u64) -> bool {
    exists|i: int| branches_at(a, b, i)
}

/// The least element of a set in search order.
pub open spec fn is_least(among: Set<u64>, a: u64) -> bool {
    among.contains(a) && forall|d: u64| among.contains(d) ==> d == a || precedes(a, d)
}

/// `next` is the element of `among` that follows `a` directly: it comes
/// after `a`, and nothing in the set lies strictly between them.
pub open spec fn is_successor(among: Set<u64>, a: u64, next: u64) -> bool {
    &&& among.contains(next)
    &&& precedes(a, next)
    &&& forall|d: u64| among.contains(d) && precedes(a, d) ==> d == next || precedes(next, d)
}

/// A list of addresses in strictly ascending search order.
pub open spec fn ascending(list: Seq<u64>) -> bool {
    forall|i: int, j: int| 0 <= i < j < list.len() ==> precedes(list[i], list[j])
}

/// No address comes before itself.
pub proof fn lemma_precedes_irreflexive(a: u64)
    ensures
        !precedes(a, a),
{
}

/// Of two addresses at most one comes before the other.
pub proof fn lemma_precedes_asymmetric(a: u64, b: u64)
    requires
        precedes(a, b),
    ensures
        !precedes(b, a),
{
    let i = choose|i: int| branches_at(a, b, i);
    if precedes(b, a) {
        let k = choose|k: int| branches_at(b, a, k);
        if i < k {
            assert(bit_of(b, i) == bit_of(a, i));
        } else if k < i {
            assert(bit_of(a, k) == bit_of(b, k));
        }
    }
}

/// Search order is transitive.
pub proof fn lemma_precedes_transitive(a: u64, b: u64, c: u64)
    requires
        precedes(a, b),
        precedes(b, c),
    ensures
        precedes(a, c),
{
    let i = choose|i: int| branches_at(a, b, i);
    let k = choose|k: int| branches_at(b, c, k);
    if i < k {
        assert(bit_of(b, i) == bit_of(c, i));
        assert(branches_at(a, c, i));
    } else if k < i {
        assert(bit_of(a, k) == bit_of(b, k));
        assert(branches_at(a, c, k));
    } else {
        assert(false);
    }
}

proof fn lemma_first_difference(a: u64, b: u64, n: int)
    requires
        0 <= n <= 64,
        same_prefix(a, b, n),
        a != b,
    ensures
        precedes(a, b) || precedes(b, a),
    decreases 64 - n,
{
    if n == 64 {
        lemma_bits_determine(a, b);
    } else if bit_of(a, n) == bit_of(b, n) {
        lemma_first_difference(a, b, n + 1);
    } else if bit_of(b, n) {
        assert(branches_at(a, b, n));
    } else {
        assert(same_prefix(b, a, n));
        assert(branches_at(b, a, n));
    }
}

/// Any two different addresses are ordered.
pub proof fn lemma_precedes_total(a: u64, b: u64)
    ensures
        a == b || precedes(a, b) || precedes(b, a),
{
    if a != b {
        lemma_first_difference(a, b, 0);
    }
}

/// Two addresses that differ in a single bit are ordered by that bit: the
/// one with the zero comes first.
pub proof fn lemma_single_bit_decides(a: u64, b: u64, at: int)
    requires
        0 <= at < 64,
        !bit_of(a, at),
        bit_of(b, at),
        forall|j: int| 0 <= j < 64 && j != at ==> bit_of(a, j) == bit_of(b, j),
    ensures
        precedes(a, b),
        !precedes(b, a),
{
    assert(branches_at(a, b, at));
    lemma_precedes_asymmetric(a, b);
}

/// A set has at most one least element.
pub proof fn lemma_least_unique(among: Set<u64>, a: u64, b: u64)
    requires
        is_least(among, a),
        is_least(among, b),
    ensures
        a == b,
{
    if a != b {
        lemma_precedes_asymmetric(a, b);
    }
}

/// An address has at most one successor in a set.
pub proof fn lemma_successor_unique(among: Set<u64>, a: u64, x: u64, y: u64)
    requires
        is_successor(among, a, x),
        is_successor(among, a, y),
    ensures
        x == y,
{
    if x != y {
        lemma_precedes_asymmetric(x, y);
    }
}

/// An ascending list holds no address twice.
pub proof fn lemma_ascending_no_duplicates(list: Seq<u64>)
    requires
        ascending(list),
    ensures
        list.no_duplicates(),
{
    assert forall|i: int, j: int| 0 <= i < list.len() && 0 <= j < list.len() && i != j implies list[i]
        != list[j] by {
        if i < j {
            lemma_precedes_irreflexive(list[i]);
        } else {
            lemma_precedes_irreflexive(list[j]);
        }
    }
}

/// What an address still has ahead of it: the number that its first `n`
/// bits spell when each is inverted and bit 0 counts most. It shrinks as the
/// search moves on.
pub open spec fn headroom(a: u64, n: int) -> nat
    decreases n,
{
    if n <= 0 {
        0
    } else {
        2 * headroom(a, n - 1) + (if bit_of(a, n - 1) {
            0nat
        } else {
            1nat
        })
    }
}

proof fn lemma_headroom_prefix(a: u64, b: u64, n: int)
    requires
        same_prefix(a, b, n),
    ensures
        headroom(a, n) == headroom(b, n),
    decreases n,
{
    if n > 0 {
        assert(bit_of(a, n - 1) == bit_of(b, n - 1));
        lemma_headroom_prefix(a, b, n - 1);
    }
}

proof fn lemma_headroom_keeps_order(a: u64, b: u64, from: int, to: int)
    requires
        0 <= from <= to,
        headroom(b, from) < headroom(a, from),
    ensures
        headroom(b, to) < headroom(a, to),
    decreases to - from,
{
    if from < to {
        lemma_headroom_keeps_order(a, b, from, to - 1);
    }
}

/// An address that comes later has strictly less headroom.
pub proof fn lemma_precedes_headroom(a: u64, b: u64)
    requires
        precedes(a, b),
    ensures
        headroom(b, 64) < headroom(a, 64),
{
    let i = choose|i: int| branches_at(a, b, i);
    lemma_headroom_prefix(a, b, i);
    assert(headroom(b, i + 1) < headroom(a, i + 1));
    lemma_headroom_keeps_order(a, b, i + 1, 64);
}

proof fn lemma_low_bits_step(a: u64, b: u64, n: u64)
    by (bit_vector)
    requires
        n < 64,
    ensures
        (((a ^ b) << ((63 - n) as u64)) == 0) == ((n == 0 || ((a ^ b) << ((64 - n) as u64)) == 0)
            && (((a >> n) & 1 == 1) == ((b >> n) & 1 == 1))),
{
}

spec fn low_bits_equal(a: u64, b: u64, n: int) -> bool {
    n <= 0 || ((a ^ b) << ((64 - n) as u64)) == 0
}

proof fn lemma_low_bits_equal(a: u64, b: u64, n: int)
    requires
        0 <= n <= 64,
    ensures
        low_bits_equal(a, b, n) == same_prefix(a, b, n),
    decreases n,
{
    if n > 0 {
        lemma_low_bits_equal(a, b, n - 1);
        lemma_low_bits_step(a, b, (n - 1) as u64);
        assert(low_bits_equal(a, b, n) == (low_bits_equal(a, b, n - 1) && bit_of(a, n - 1)
            == bit_of(b, n - 1)));
        if same_prefix(a, b, n) {
            assert(same_prefix(a, b, n - 1));
            assert(bit_of(a, n - 1) == bit_of(b, n - 1));
        }
    }
}

/// Whether two addresses have the same bits below position `n`.
pub fn shares_low_bits(a: u64, b: u64, n: u8) -> (same: bool)
    requires
        n <= 64,
    ensures
        same == same_prefix(a, b, n as int),
{
    proof {
        lemma_low_bits_equal(a, b, n as int);
    }
    n == 0 || ((a ^ b) << ((64 - n) as u64)) == 0
}

} // verus!
