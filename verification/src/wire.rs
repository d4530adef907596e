//! A model of the wire during a search: which answers a set of devices
//! gives, which device a pass ends at, and what the cursor then records.
//!
//! The devices that answer a search form a set of addresses. At each bit a
//! device takes part as long as it agrees with every bit written so far.
//! The statements here are about whole passes; `search` holds the single
//! step that they are built from.

use vstd::prelude::*;
use crate::bits::{bit_of, lemma_bits_determine, lemma_with_bit, lemma_zero_has_no_bits, with_bit};
use crate::order::{
    branches_at, is_least, is_successor, precedes, same_prefix,
};
use crate::search::{chosen_bit, forks, moved_on, opening, CursorModel, PassModel};

verus! {

/// Among the devices that agree with `path` below position `i`, one has a
/// zero at `i`: the first read slot comes back low.
pub open spec fn zero_seen(bus: Set<u64>, path: u64, i: int) -> bool {
    exists|d: u64| #[trigger] bus.contains(d) && same_prefix(d, path, i) && !bit_of(d, i)
}

/// Among the devices that agree with `path` below position `i`, one has a
/// one at `i`: the second read slot comes back low.
pub open spec fn one_seen(bus: Set<u64>, path: u64, i: int) -> bool {
    exists|d: u64| #[trigger] bus.contains(d) && same_prefix(d, path, i) && bit_of(d, i)
}

/// No device answers.
pub open spec fn silent(bus: Set<u64>) -> bool {
    forall|d: u64| !bus.contains(d)
}

/// Position `j` is an open branch of `a`: `a` has a zero there, and the bus
/// holds an address that agrees with `a` below `j` and has a one at `j`.
pub open spec fn open_branch(bus: Set<u64>, a: u64, j: int) -> bool {
    !bit_of(a, j) && one_seen(bus, a, j)
}

/// The position at which a pass leaves the path of the pass before it, or
/// -1 for a pass that starts over.
pub open spec fn pivot_of(cursor: Option<CursorModel>) -> int {
    match cursor {
        None => -1,
        Some(c) => c.last,
    }
}

/// The devices that a pass can end at. A pass that starts over can end at
/// any device. A resumed pass turns towards one at its pivot, so it can end
/// only at devices that agree with the previous address below the pivot and
/// have a one there.
pub open spec fn in_scope(bus: Set<u64>, cursor: Option<CursorModel>, d: u64) -> bool {
    bus.contains(d) && match cursor {
        None => true,
        Some(c) => same_prefix(d, c.address, c.last) && bit_of(d, c.last),
    }
}

pub open spec fn scope(bus: Set<u64>, cursor: Option<CursorModel>) -> Set<u64> {
    Set::new(|d: u64| in_scope(bus, cursor, d))
}

/// A branch that the cursor before this pass had recorded below its pivot:
/// the pass keeps it.
pub open spec fn kept(cursor: Option<CursorModel>, j: int) -> bool {
    cursor matches Some(c) && j < c.last && bit_of(c.discrepancies, j)
}

/// What a pass that ends at `found` records as `discrepancies`: the
/// branches it kept, and above its pivot the open branches of `found`.
pub open spec fn recorded(
    bus: Set<u64>,
    cursor: Option<CursorModel>,
    found: u64,
    discrepancies: u64,
) -> bool {
    forall|j: int|
        0 <= j < 64 ==> #[trigger] bit_of(discrepancies, j) == (kept(cursor, j) || (pivot_of(cursor)
            < j && open_branch(bus, found, j)))
}

/// The one position at which a pass can break off: its pivot, or the first
/// bit for a pass that starts over.
pub open spec fn turning_point(cursor: Option<CursorModel>) -> int {
    match cursor {
        None => 0,
        Some(c) => c.last,
    }
}

/// Whether a pass that gets under way breaks off because the answers
/// contradict the protocol. A pass that starts over breaks off when nothing
/// answers. A resumed pass breaks off when it does not find both branches
/// at its pivot.
pub open spec fn breaks_off(bus: Set<u64>, cursor: Option<CursorModel>) -> bool {
    match cursor {
        None => silent(bus),
        Some(c) => !(zero_seen(bus, c.address, c.last) && one_seen(bus, c.address, c.last)),
    }
}

/// A cursor fits a bus: its address is on the bus, and it records exactly
/// the open branches of that address. Every cursor that a pass hands out is
/// valid; it fits as long as the devices on the bus stay the same.
pub open spec fn tracks(bus: Set<u64>, c: CursorModel) -> bool {
    &&& c.wf()
    &&& bus.contains(c.address)
    &&& forall|j: int|
        0 <= j < 64 ==> #[trigger] bit_of(c.discrepancies, j) == open_branch(bus, c.address, j)
}

/// The pass `p`, which was opened from `cursor`, has so far done what the
/// answers of `bus` make it do.
pub open spec fn on_course(bus: Set<u64>, cursor: Option<CursorModel>, p: PassModel) -> bool {
    &&& 0 <= p.index <= 64
    &&& p.pivot == match cursor {
        None => None::<int>,
        Some(c) => Some(c.last),
    }
    &&& cursor matches Some(c) ==> (p.index <= c.last ==> p.address == c.address
        && p.discrepancies == with_bit(c.discrepancies, c.last, false))
    &&& p.index > pivot_of(cursor) ==> {
        &&& cursor matches Some(c) ==> same_prefix(p.address, c.address, c.last) && bit_of(
            p.address,
            c.last,
        )
        &&& p.index > 0 || !silent(bus) ==> exists|d: u64|
            #[trigger] in_scope(bus, cursor, d) && same_prefix(d, p.address, p.index)
        &&& forall|d: u64| #[trigger]
            in_scope(bus, cursor, d) ==> same_prefix(d, p.address, p.index) || diverged(
                p.address,
                d,
                p.index,
            )
        &&& forall|j: int|
            0 <= j < 64 ==> #[trigger] bit_of(p.discrepancies, j) == (kept(cursor, j) || (pivot_of(
                cursor,
            ) < j < p.index && open_branch(bus, p.address, j)))
    }
}

/// `d` has left the path `path` below position `n`, towards one.
pub open spec fn diverged(path: u64, d: u64, n: int) -> bool {
    exists|j: int| 0 <= j < n && #[trigger] branches_at(path, d, j)
}

proof fn lemma_branches_stable(a: u64, b: u64, n: int, d: u64, j: int)
    requires
        same_prefix(a, b, n),
        0 <= j < n,
    ensures
        branches_at(a, d, j) == branches_at(b, d, j),
        same_prefix(d, a, j) == same_prefix(d, b, j),
        same_prefix(d, a, n) == same_prefix(d, b, n),
{
    assert(bit_of(a, j) == bit_of(b, j));
    if same_prefix(a, d, j) {
        assert(same_prefix(b, d, j));
    }
    if same_prefix(b, d, j) {
        assert(same_prefix(a, d, j));
    }
    if same_prefix(d, a, j) {
        assert(same_prefix(d, b, j));
    }
    if same_prefix(d, b, j) {
        assert(same_prefix(d, a, j));
    }
    if same_prefix(d, a, n) {
        assert(same_prefix(d, b, n));
    }
    if same_prefix(d, b, n) {
        assert(same_prefix(d, a, n));
    }
}

proof fn lemma_open_branch_stable(bus: Set<u64>, a: u64, b: u64, n: int, j: int)
    requires
        same_prefix(a, b, n),
        0 <= j < n,
    ensures
        open_branch(bus, a, j) == open_branch(bus, b, j),
{
    assert(bit_of(a, j) == bit_of(b, j));
    if one_seen(bus, a, j) {
        let d = choose|d: u64| #[trigger] bus.contains(d) && same_prefix(d, a, j) && bit_of(d, j);
        lemma_branches_stable(a, b, n, d, j);
    }
    if one_seen(bus, b, j) {
        let d = choose|d: u64| #[trigger] bus.contains(d) && same_prefix(d, b, j) && bit_of(d, j);
        lemma_branches_stable(a, b, n, d, j);
    }
}

proof fn lemma_diverged_stable(a: u64, b: u64, n: int, d: u64)
    requires
        same_prefix(a, b, n),
        diverged(a, d, n),
    ensures
        diverged(b, d, n),
{
    let j = choose|j: int| 0 <= j < n && #[trigger] branches_at(a, d, j);
    lemma_branches_stable(a, b, n, d, j);
}

/// The pass that a search opens with is on course.
pub proof fn lemma_opening_on_course(bus: Set<u64>, cursor: Option<CursorModel>)
    requires
        cursor matches Some(c) ==> c.wf(),
    ensures
        on_course(bus, cursor, opening(cursor)),
{
    let p = opening(cursor);
    if cursor is None {
        assert forall|j: int| 0 <= j < 64 implies #[trigger] bit_of(p.discrepancies, j) == false by {
            lemma_zero_has_no_bits(j);
        }
        if !silent(bus) {
            let d = choose|d: u64| bus.contains(d);
            assert(in_scope(bus, cursor, d) && same_prefix(d, p.address, 0));
        }
    }
}

/// While a pass retraces or stands at its pivot, it cannot go wrong except
/// at the pivot, and there exactly when the bus no longer shows both
/// branches. Above the pivot some device always answers.
pub proof fn lemma_step_possible(bus: Set<u64>, cursor: Option<CursorModel>, p: PassModel)
    requires
        cursor matches Some(c) ==> c.wf(),
        p.wf(),
        on_course(bus, cursor, p),
    ensures
        ({
            let zero = zero_seen(bus, p.address, p.index);
            let one = one_seen(bus, p.address, p.index);
            chosen_bit(p, zero, one) is None <==> p.index == turning_point(cursor) && breaks_off(
                bus,
                cursor,
            )
        }),
{
    let zero = zero_seen(bus, p.address, p.index);
    let one = one_seen(bus, p.address, p.index);
    if p.retracing() {
    } else if p.at_pivot() {
    } else {
        if p.index > 0 || !silent(bus) {
            let d = choose|d: u64|
                #[trigger] in_scope(bus, cursor, d) && same_prefix(d, p.address, p.index);
            assert(bus.contains(d));
            assert(zero || one);
        } else {
            if zero {
                let d = choose|d: u64|
                    #[trigger] bus.contains(d) && same_prefix(d, p.address, p.index) && !bit_of(
                        d,
                        p.index,
                    );
                assert(false);
            }
            if one {
                let d = choose|d: u64|
                    #[trigger] bus.contains(d) && same_prefix(d, p.address, p.index) && bit_of(
                        d,
                        p.index,
                    );
                assert(false);
            }
        }
    }
}

/// A step that the answers of the bus allow keeps the pass on course.
pub proof fn lemma_step_on_course(
    bus: Set<u64>,
    cursor: Option<CursorModel>,
    p: PassModel,
    bit: bool,
)
    requires
        cursor matches Some(c) ==> c.wf(),
        p.wf(),
        on_course(bus, cursor, p),
        chosen_bit(p, zero_seen(bus, p.address, p.index), one_seen(bus, p.address, p.index))
            == Some(bit),
    ensures
        on_course(
            bus,
            cursor,
            moved_on(
                p,
                zero_seen(bus, p.address, p.index),
                one_seen(bus, p.address, p.index),
                bit,
            ),
        ),
{
    let zero = zero_seen(bus, p.address, p.index);
    let one = one_seen(bus, p.address, p.index);
    let next = moved_on(p, zero, one, bit);
    let i = p.index;
    assert forall|j: int| #![trigger bit_of(next.address, j)]
        bit_of(next.address, j) == (if j == i && !p.retracing() {
            bit
        } else {
            bit_of(p.address, j)
        }) by {
        lemma_with_bit(p.address, i, bit, j);
    }
    assert forall|j: int| #![trigger bit_of(next.discrepancies, j)]
        bit_of(next.discrepancies, j) == (bit_of(p.discrepancies, j) || (forks(p, zero, one) && j
            == i)) by {
        lemma_with_bit(p.discrepancies, i, true, j);
    }
    assert(same_prefix(p.address, next.address, i));
    if p.retracing() {
    } else if p.at_pivot() {
        let c = cursor->0;
        assert(p.address == c.address);
        assert forall|j: int| #![trigger bit_of(p.discrepancies, j)]
            bit_of(p.discrepancies, j) == (bit_of(c.discrepancies, j) && j != c.last) by {
            lemma_with_bit(c.discrepancies, c.last, false, j);
        }
        let w = choose|d: u64|
            #[trigger] bus.contains(d) && same_prefix(d, p.address, i) && bit_of(d, i);
        assert(same_prefix(w, next.address, i + 1));
        assert(in_scope(bus, cursor, w));
        assert forall|d: u64| #[trigger] in_scope(bus, cursor, d) implies same_prefix(
            d,
            next.address,
            next.index,
        ) by {
            assert(same_prefix(d, c.address, i));
        }
    } else {
        // fresh ground: every device still taking part is in scope
        let w = choose|d: u64|
            #[trigger] bus.contains(d) && same_prefix(d, p.address, i) && bit_of(d, i) == bit;
        if zero {
            let z = choose|d: u64|
                #[trigger] bus.contains(d) && same_prefix(d, p.address, i) && !bit_of(d, i);
            assert(bus.contains(z) && same_prefix(z, p.address, i) && bit_of(z, i) == bit);
        } else {
            let o = choose|d: u64|
                #[trigger] bus.contains(d) && same_prefix(d, p.address, i) && bit_of(d, i);
            assert(bus.contains(o) && same_prefix(o, p.address, i) && bit_of(o, i) == bit);
        }
        assert(bus.contains(w) && same_prefix(w, p.address, i) && bit_of(w, i) == bit);
        lemma_taking_part_in_scope(bus, cursor, p, w);
        assert(same_prefix(w, next.address, i + 1));
        assert(in_scope(bus, cursor, w) && same_prefix(w, next.address, next.index));
        if cursor is Some {
            let c = cursor->0;
            assert(same_prefix(next.address, c.address, c.last));
        }
        assert forall|d: u64| #[trigger] in_scope(bus, cursor, d) implies same_prefix(
            d,
            next.address,
            next.index,
        ) || diverged(next.address, d, next.index) by {
            if diverged(p.address, d, i) {
                lemma_diverged_stable(p.address, next.address, i, d);
                let j = choose|j: int| 0 <= j < i && #[trigger] branches_at(next.address, d, j);
                assert(0 <= j < i + 1 && branches_at(next.address, d, j));
            } else {
                assert(same_prefix(d, p.address, i));
                if bit_of(d, i) == bit {
                    assert(same_prefix(d, next.address, i + 1));
                } else {
                    if bit {
                        assert(bus.contains(d) && same_prefix(d, p.address, i) && !bit_of(d, i));
                        assert(zero);
                    }
                    assert(same_prefix(next.address, d, i));
                    assert(branches_at(next.address, d, i));
                }
            }
        }
        assert forall|j: int| 0 <= j < 64 implies #[trigger] bit_of(next.discrepancies, j) == (kept(
            cursor,
            j,
        ) || (pivot_of(cursor) < j < next.index && open_branch(bus, next.address, j))) by {
            if j < i {
                lemma_open_branch_stable(bus, p.address, next.address, i, j);
            } else if j == i {
                assert(!bit_of(p.discrepancies, i));
                if one_seen(bus, next.address, i) {
                    let o = choose|d: u64|
                        #[trigger] bus.contains(d) && same_prefix(d, next.address, i) && bit_of(
                            d,
                            i,
                        );
                    assert(same_prefix(o, p.address, i));
                    assert(one);
                }
                if one {
                    let o = choose|d: u64|
                        #[trigger] bus.contains(d) && same_prefix(d, p.address, i) && bit_of(d, i);
                    assert(same_prefix(o, next.address, i));
                    assert(one_seen(bus, next.address, i));
                }
            } else {
                assert(!bit_of(p.discrepancies, j));
            }
        }
    }
}

proof fn lemma_taking_part_in_scope(
    bus: Set<u64>,
    cursor: Option<CursorModel>,
    p: PassModel,
    d: u64,
)
    requires
        on_course(bus, cursor, p),
        p.index > pivot_of(cursor),
        bus.contains(d),
        same_prefix(d, p.address, p.index),
    ensures
        in_scope(bus, cursor, d),
{
    if cursor is Some {
        let c = cursor->0;
        assert(same_prefix(d, c.address, c.last));
        assert(bit_of(d, c.last) == bit_of(p.address, c.last));
    }
}

/// A pass that stayed on course through all 64 bits has arrived at the
/// first device within its scope and has recorded that device's branches.
pub proof fn lemma_arrival(bus: Set<u64>, cursor: Option<CursorModel>, p: PassModel)
    requires
        on_course(bus, cursor, p),
        p.index == 64,
        cursor matches Some(c) ==> c.wf(),
    ensures
        is_least(scope(bus, cursor), p.address),
        recorded(bus, cursor, p.address, p.discrepancies),
{
    let w = choose|d: u64| #[trigger] in_scope(bus, cursor, d) && same_prefix(d, p.address, 64);
    lemma_bits_determine(w, p.address);
    assert forall|d: u64| scope(bus, cursor).contains(d) implies d == p.address || precedes(
        p.address,
        d,
    ) by {
        assert(in_scope(bus, cursor, d));
        if same_prefix(d, p.address, 64) {
            lemma_bits_determine(d, p.address);
        } else {
            let j = choose|j: int| 0 <= j < 64 && #[trigger] branches_at(p.address, d, j);
            assert(branches_at(p.address, d, j));
        }
    }
}

/// The cursor that a pass hands out fits the bus on which the pass ran,
/// provided that the cursor it was opened from did.
pub proof fn lemma_found_tracks(
    bus: Set<u64>,
    cursor: Option<CursorModel>,
    found: u64,
    next: CursorModel,
)
    requires
        cursor matches Some(c) ==> tracks(bus, c),
        is_least(scope(bus, cursor), found),
        next.wf(),
        next.address == found,
        recorded(bus, cursor, found, next.discrepancies),
    ensures
        tracks(bus, next),
{
    assert(in_scope(bus, cursor, found));
    assert forall|j: int| 0 <= j < 64 implies #[trigger] bit_of(next.discrepancies, j)
        == open_branch(bus, found, j) by {
        if cursor is Some {
            let c = cursor->0;
            if j < c.last {
                assert(same_prefix(c.address, found, c.last)) by {
                    assert(same_prefix(found, c.address, c.last));
                }
                lemma_open_branch_stable(bus, c.address, found, c.last, j);
            }
        }
    }
}

/// On a bus that the cursor fits, a resumed pass finds both branches at its
/// pivot, so it does not break off.
pub proof fn lemma_resumed_pass_gets_through(bus: Set<u64>, c: CursorModel)
    requires
        tracks(bus, c),
        !c.exhausted(),
    ensures
        !breaks_off(bus, Some(c)),
{
    assert(open_branch(bus, c.address, c.last));
    assert(bus.contains(c.address) && same_prefix(c.address, c.address, c.last) && !bit_of(
        c.address,
        c.last,
    ));
}

/// On a bus that the cursor fits, the first device in the scope of a
/// resumed pass is the one that follows the cursor's device directly: no
/// device is skipped and none comes twice.
pub proof fn lemma_resumed_pass_finds_successor(bus: Set<u64>, c: CursorModel, found: u64)
    requires
        tracks(bus, c),
        !c.exhausted(),
        is_least(scope(bus, Some(c)), found),
    ensures
        is_successor(bus, c.address, found),
{
    let a = c.address;
    let pv = c.last;
    assert(in_scope(bus, Some(c), found));
    assert(open_branch(bus, a, pv));
    assert(same_prefix(a, found, pv));
    assert(branches_at(a, found, pv));
    assert forall|d: u64| bus.contains(d) && precedes(a, d) implies d == found || precedes(
        found,
        d,
    ) by {
        let k = choose|k: int| branches_at(a, d, k);
        assert(same_prefix(d, a, k));
        assert(bus.contains(d) && same_prefix(d, a, k) && bit_of(d, k));
        assert(open_branch(bus, a, k));
        assert(bit_of(c.discrepancies, k));
        if k == pv {
            assert(in_scope(bus, Some(c), d));
            assert(scope(bus, Some(c)).contains(d));
        } else {
            assert(k < pv);
            assert(bit_of(found, k) == bit_of(a, k));
            assert(same_prefix(found, d, k));
            assert(branches_at(found, d, k));
        }
    }
}

/// On a bus that the cursor fits, the cursor says that the search is over
/// exactly when its device is the last one.
pub proof fn lemma_exhausted_iff_last(bus: Set<u64>, c: CursorModel)
    requires
        tracks(bus, c),
    ensures
        c.exhausted() <==> forall|d: u64| bus.contains(d) ==> !precedes(c.address, d),
{
    let a = c.address;
    if c.exhausted() {
        assert forall|d: u64| bus.contains(d) implies !precedes(a, d) by {
            if precedes(a, d) {
                let k = choose|k: int| branches_at(a, d, k);
                assert(same_prefix(d, a, k));
                assert(bus.contains(d) && same_prefix(d, a, k) && bit_of(d, k));
                assert(open_branch(bus, a, k));
                assert(bit_of(c.discrepancies, k));
                lemma_zero_has_no_bits(k);
            }
        }
    } else {
        assert(open_branch(bus, a, c.last));
        let d = choose|d: u64|
            #[trigger] bus.contains(d) && same_prefix(d, a, c.last) && bit_of(d, c.last);
        assert(same_prefix(a, d, c.last));
        assert(branches_at(a, d, c.last));
        assert(precedes(a, d));
    }
}

} // verus!
