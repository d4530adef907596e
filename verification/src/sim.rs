//! A bus made of data: a list of devices that answers as real devices on a
//! wire would. It gives the protocol logic something to run against where
//! there is no hardware.

use vstd::prelude::*;
use crate::address::{address_ok, Address};
use crate::bits::{bit_of, test_bit};
use crate::error::BusError;
use crate::order::{
    ascending, headroom, is_least, is_successor, lemma_precedes_asymmetric,
    lemma_precedes_headroom, lemma_precedes_irreflexive, lemma_precedes_total,
    lemma_precedes_transitive, precedes, same_prefix, shares_low_bits,
};
use crate::sample::Sample;
use crate::search::{
    chosen_bit, moved_on, opening_command, CursorModel, SearchCursor, SearchPass, SearchStep,
};
use crate::wire::{
    breaks_off, in_scope, lemma_arrival, lemma_exhausted_iff_last, lemma_found_tracks,
    lemma_opening_on_course, lemma_resumed_pass_finds_successor,
    lemma_resumed_pass_gets_through, lemma_step_on_course, lemma_step_possible, on_course,
    one_seen, recorded, scope, silent, tracks, turning_point, zero_seen,
};

verus! {

/// One device on a simulated bus.
#[derive(Clone, Copy, Debug)]
pub struct SimulatedDevice {
    /// The address that the device answers a search with.
    pub address: u64,
    /// Whether the device is in its alarm state.
    pub alarming: bool,
    /// What a read of the device's measurement comes to.
    pub reading: Result<Sample, BusError>,
}

/// A bus with any number of devices.
pub struct SimulatedBus {
    /// The devices, in the order in which they were attached.
    pub devices: Vec<SimulatedDevice>,
    /// If set, the command that starts a conversion on all devices fails
    /// with this error.
    pub conversion_fault: Option<BusError>,
}

/// Whether a device answers a search: every device answers an ordinary
/// search, only those in alarm answer an alarm search.
pub open spec fn answers(device: SimulatedDevice, alarm_only: bool) -> bool {
    alarm_only ==> device.alarming
}

/// The cursor that a pass is opened from, as a value of the model.
pub open spec fn start_of(cursor: Option<&SearchCursor>) -> Option<CursorModel> {
    match cursor {
        Some(c) => Some(c@),
        None => None,
    }
}

/// The cursor that a search holds between two passes, as a value of the
/// model.
pub open spec fn held(cursor: Option<SearchCursor>) -> Option<CursorModel> {
    match cursor {
        Some(c) => Some(c@),
        None => None,
    }
}

impl SimulatedBus {
    /// Whether any device is attached: a reset is answered by a presence
    /// pulse.
    pub open spec fn present(&self) -> bool {
        self.devices@.len() > 0
    }

    /// The addresses that answer a search.
    pub open spec fn responders(&self, alarm_only: bool) -> Set<u64> {
        Set::new(
            |a: u64|
                exists|k: int|
                    0 <= k < self.devices@.len() && answers(#[trigger] self.devices@[k], alarm_only)
                        && self.devices@[k].address == a,
        )
    }

    /// An empty bus on which every command succeeds.
    pub fn new() -> (bus: SimulatedBus)
        ensures
            bus.devices@.len() == 0,
            bus.conversion_fault is None,
    {
        SimulatedBus { devices: Vec::new(), conversion_fault: None }
    }

    /// Attaches one more device.
    pub fn attach(&mut self, device: SimulatedDevice)
        ensures
            final(self).devices@ == old(self).devices@.push(device),
            final(self).conversion_fault == old(self).conversion_fault,
    {
        self.devices.push(device);
    }

    /// Sends a reset pulse and says whether a device answered it.
    pub fn reset(&self) -> (presence: bool)
        ensures
            presence == self.present(),
    {
        self.devices.len() > 0
    }

    /// The two read slots of a search at bit `index`, after the bits of
    /// `path` below `index` were written: whether some device that is still
    /// taking part sent a zero, and whether some sent a one.
    pub fn slots(&self, path: u64, index: u8, alarm_only: bool) -> (seen: (bool, bool))
        requires
            index < 64,
        ensures
            seen.0 == zero_seen(self.responders(alarm_only), path, index as int),
            seen.1 == one_seen(self.responders(alarm_only), path, index as int),
    {
        let ghost bus = self.responders(alarm_only);
        let mut zero = false;
        let mut one = false;
        let mut k: usize = 0;
        while k < self.devices.len()
            invariant
                k <= self.devices@.len(),
                index < 64,
                zero <==> exists|m: int|
                    0 <= m < k && answers(#[trigger] self.devices@[m], alarm_only) && same_prefix(
                        self.devices@[m].address,
                        path,
                        index as int,
                    ) && !bit_of(self.devices@[m].address, index as int),
                one <==> exists|m: int|
                    0 <= m < k && answers(#[trigger] self.devices@[m], alarm_only) && same_prefix(
                        self.devices@[m].address,
                        path,
                        index as int,
                    ) && bit_of(self.devices@[m].address, index as int),
            decreases self.devices@.len() - k,
        {
            let device = &self.devices[k];
            if (!alarm_only || device.alarming) && shares_low_bits(device.address, path, index) {
                if test_bit(device.address, index) {
                    one = true;
                } else {
                    zero = true;
                }
            }
            k += 1;
        }
        proof {
            let i = index as int;
            if zero {
                let m = choose|m: int|
                    0 <= m < k && answers(#[trigger] self.devices@[m], alarm_only) && same_prefix(
                        self.devices@[m].address,
                        path,
                        i,
                    ) && !bit_of(self.devices@[m].address, i);
                assert(bus.contains(self.devices@[m].address));
            }
            if zero_seen(bus, path, i) {
                let d = choose|d: u64|
                    #[trigger] bus.contains(d) && same_prefix(d, path, i) && !bit_of(d, i);
                let m = choose|m: int|
                    0 <= m < self.devices@.len() && answers(
                        #[trigger] self.devices@[m],
                        alarm_only,
                    ) && self.devices@[m].address == d;
                assert(zero);
            }
            if one {
                let m = choose|m: int|
                    0 <= m < k && answers(#[trigger] self.devices@[m], alarm_only) && same_prefix(
                        self.devices@[m].address,
                        path,
                        i,
                    ) && bit_of(self.devices@[m].address, i);
                assert(bus.contains(self.devices@[m].address));
            }
            if one_seen(bus, path, i) {
                let d = choose|d: u64|
                    #[trigger] bus.contains(d) && same_prefix(d, path, i) && bit_of(d, i);
                let m = choose|m: int|
                    0 <= m < self.devices@.len() && answers(
                        #[trigger] self.devices@[m],
                        alarm_only,
                    ) && self.devices@[m].address == d;
                assert(one);
            }
        }
        (zero, one)
    }

    /// One pass of the search over this bus: the next device behind
    /// `cursor`, or the first device if there is no cursor.
    ///
    /// Nothing is found, without error, when the cursor says that the
    /// search is over or when no device is attached. Otherwise the pass runs.
    /// It breaks off with `UnexpectedResponse` when the answers contradict
    /// the protocol; else it arrives at the first device within its scope,
    /// fails with `CrcMismatch` if that device's address is not valid, and
    /// else hands out the address with a cursor that records its branches.
    pub fn search(&self, cursor: Option<&SearchCursor>, alarm_only: bool) -> (result: Result<
        Option<(Address, SearchCursor)>,
        BusError,
    >)
        ensures
            cursor matches Some(c) ==> c@.wf(),
            search_meets(self.present(), self.responders(alarm_only), start_of(cursor), result),
    {
        let ghost bus = self.responders(alarm_only);
        let ghost start = start_of(cursor);
        let opened = SearchPass::begin(cursor);
        let mut pass = match opened {
            None => {
                return Ok(None);
            },
            Some(p) => p,
        };
        if opening_command(self.reset(), alarm_only).is_none() {
            return Ok(None);
        }
        proof {
            lemma_opening_on_course(bus, start);
        }
        loop
            invariant
                bus == self.responders(alarm_only),
                start == start_of(cursor),
                start matches Some(c) ==> c.wf() && !c.exhausted(),
                self.present(),
                pass@.wf(),
                on_course(bus, start, pass@),
                pass@.index <= turning_point(start) || !breaks_off(bus, start),
            decreases 64 - pass@.index,
        {
            let index = pass.position();
            let path = pass.path();
            let (zero, one) = self.slots(path, index, alarm_only);
            let ghost before = pass@;
            proof {
                lemma_step_possible(bus, start, before);
                if chosen_bit(before, zero, one) is Some {
                    lemma_step_on_course(bus, start, before, chosen_bit(before, zero, one)->0);
                }
            }
            match pass.advance(zero, one) {
                SearchStep::Continue { write: _, pass: next } => {
                    pass = next;
                },
                SearchStep::Found { write: _, address, cursor: next } => {
                    proof {
                        let bit = chosen_bit(before, zero, one)->0;
                        lemma_arrival(bus, start, moved_on(before, zero, one, bit));
                    }
                    return Ok(Some((address, next)));
                },
                SearchStep::Failed { pending: _, error } => {
                    proof {
                        if chosen_bit(before, zero, one) is Some {
                            let bit = chosen_bit(before, zero, one)->0;
                            lemma_arrival(
                                bus,
                                start,
                                moved_on(before, zero, one, bit),
                            );
                        }
                    }
                    return Err(error);
                },
            }
        }
    }

    /// Runs the search to its end: pass after pass, each resumed from the
    /// cursor of the one before, until a pass finds nothing or fails.
    ///
    /// The devices come out in search order, each once. If every address on
    /// the bus is valid, all of them come out. Otherwise the search stops
    /// with `CrcMismatch` at the first invalid one, and those before it come
    /// out.
    pub fn discover(&self, alarm_only: bool) -> (all: Discovery)
        ensures
            ascending(raw(all.found@)),
            forall|a: u64|
                listed(all.found@, a) <==> self.responders(alarm_only).contains(a)
                    && before_every_invalid(self.responders(alarm_only), a),
            all.error == discovery_error(self.present(), self.responders(alarm_only)),
    {
        let ghost bus = self.responders(alarm_only);
        let mut found: Vec<Address> = Vec::new();
        let mut cursor: Option<SearchCursor> = None;
        proof {
            if !self.present() {
                assert forall|d: u64| !bus.contains(d) by {}
            }
        }
        loop
            invariant
                bus == self.responders(alarm_only),
                !self.present() ==> silent(bus),
                ascending(raw(found@)),
                cursor is None ==> found@.len() == 0,
                cursor matches Some(c) ==> tracks(bus, c@) && up_to(bus, found@, c@.address),
            decreases
                    (if cursor is None {
                        1int
                    } else {
                        0int
                    }),
                    (match cursor {
                        Some(c) => headroom(c@.address, 64) as int,
                        None => 0int,
                    }),
        {
            let ghost start = held(cursor);
            let result = self.search(cursor.as_ref(), alarm_only);
            match result {
                Ok(Some((address, next))) => {
                    proof {
                        lemma_found_tracks(bus, start, address.0, next@);
                        lemma_one_more(bus, start, found@, address);
                        if start is Some {
                            let c = start->0;
                            lemma_resumed_pass_gets_through(bus, c);
                            lemma_resumed_pass_finds_successor(bus, c, address.0);
                            lemma_precedes_headroom(c.address, address.0);
                        }
                    }
                    found.push(address);
                    cursor = Some(next);
                },
                Ok(None) => {
                    proof {
                        lemma_search_over(self.present(), bus, start, found@);
                    }
                    return Discovery { found, error: None };
                },
                Err(error) => {
                    proof {
                        lemma_search_stopped(self.present(), bus, start, found@, error);
                    }
                    return Discovery { found, error: Some(error) };
                },
            }
        }
    }
}

/// What one search pass over a bus comes to. `present` says whether any
/// device answers a reset, `bus` holds the addresses that answer the search,
/// `start` is the cursor that the pass is opened from.
pub open spec fn search_meets(
    present: bool,
    bus: Set<u64>,
    start: Option<CursorModel>,
    result: Result<Option<(Address, SearchCursor)>, BusError>,
) -> bool {
    if (start matches Some(c) && c.exhausted()) || !present {
        result matches Ok(None)
    } else if breaks_off(bus, start) {
        result matches Err(BusError::UnexpectedResponse)
    } else {
        match result {
            Ok(Some((address, next))) => {
                &&& is_least(scope(bus, start), address.0)
                &&& address_ok(address.0)
                &&& next@.wf()
                &&& next@.address == address.0
                &&& recorded(bus, start, address.0, next@.discrepancies)
            },
            Ok(None) => false,
            Err(error) => {
                &&& error == BusError::CrcMismatch
                &&& exists|first: u64|
                    is_least(scope(bus, start), first) && !address_ok(first)
            },
        }
    }
}

/// What a search that ran to its end brought.
pub struct Discovery {
    /// The devices found, in the order in which they were found.
    pub found: Vec<Address>,
    /// The error that ended the search, if one did.
    pub error: Option<BusError>,
}

/// The 64-bit values of a list of addresses.
pub open spec fn raw(list: Seq<Address>) -> Seq<u64> {
    Seq::new(list.len(), |k: int| list[k].0)
}

/// Whether `a` is in the list.
pub open spec fn listed(list: Seq<Address>, a: u64) -> bool {
    exists|k: int| 0 <= k < list.len() && (#[trigger] list[k]).0 == a
}

/// `a` comes before every device on the bus whose address is not valid.
pub open spec fn before_every_invalid(bus: Set<u64>, a: u64) -> bool {
    forall|s: u64| bus.contains(s) && !address_ok(s) ==> precedes(a, s)
}

/// The error that ends a search run to exhaustion: none where no device is
/// attached or every address is valid; `UnexpectedResponse` where devices
/// are attached but none answers the search; `CrcMismatch` where an address
/// is not valid.
pub open spec fn discovery_error(present: bool, bus: Set<u64>) -> Option<BusError> {
    if !present {
        None
    } else if silent(bus) {
        Some(BusError::UnexpectedResponse)
    } else if exists|s: u64| bus.contains(s) && !address_ok(s) {
        Some(BusError::CrcMismatch)
    } else {
        None
    }
}

/// The list holds exactly the devices of the bus up to and including
/// `last`, and all of them are valid.
pub open spec fn up_to(bus: Set<u64>, list: Seq<Address>, last: u64) -> bool {
    &&& forall|a: u64|
        listed(list, a) <==> bus.contains(a) && (a == last || precedes(a, last))
    &&& forall|k: int| 0 <= k < list.len() ==> address_ok((#[trigger] list[k]).0)
}

/// A pass that finds a valid device extends the list of devices found so
/// far by the device that follows them, and the list stays in order.
pub proof fn lemma_one_more(
    bus: Set<u64>,
    start: Option<CursorModel>,
    list: Seq<Address>,
    address: Address,
)
    requires
        ascending(raw(list)),
        start is None ==> list.len() == 0,
        start matches Some(c) ==> tracks(bus, c) && !c.exhausted() && up_to(bus, list, c.address),
        is_least(scope(bus, start), address.0),
        address_ok(address.0),
    ensures
        ascending(raw(list.push(address))),
        up_to(bus, list.push(address), address.0),
{
    let r = address.0;
    let longer = list.push(address);
    assert(in_scope(bus, start, r));
    if start is Some {
        let c = start->0;
        lemma_resumed_pass_finds_successor(bus, c, r);
        assert(is_successor(bus, c.address, r));
    }
    assert forall|i: int, j: int| 0 <= i < j < raw(longer).len() implies precedes(
        raw(longer)[i],
        raw(longer)[j],
    ) by {
        if j < list.len() {
            assert(precedes(raw(list)[i], raw(list)[j]));
        } else {
            let c = start->0;
            assert(listed(list, list[i].0));
            if list[i].0 != c.address {
                lemma_precedes_transitive(list[i].0, c.address, r);
            }
        }
    }
    assert forall|a: u64| listed(longer, a) <==> bus.contains(a) && (a == r || precedes(a, r)) by {
        if listed(longer, a) {
            let k = choose|k: int| 0 <= k < longer.len() && (#[trigger] longer[k]).0 == a;
            if k < list.len() {
                let c = start->0;
                assert(list[k].0 == a);
                assert(listed(list, a));
                if a != c.address {
                    lemma_precedes_transitive(a, c.address, r);
                }
            }
        }
        if bus.contains(a) && (a == r || precedes(a, r)) {
            if a == r {
                assert(longer[list.len() as int].0 == a);
            } else {
                lemma_precedes_asymmetric(a, r);
                lemma_precedes_irreflexive(a);
                if start is None {
                    assert(scope(bus, start).contains(a));
                    assert(false);
                } else {
                    let c = start->0;
                    lemma_precedes_total(a, c.address);
                    if precedes(c.address, a) {
                        assert(false);
                    }
                    assert(listed(list, a));
                    let k = choose|k: int| 0 <= k < list.len() && (#[trigger] list[k]).0 == a;
                    assert(longer[k].0 == a);
                }
            }
        }
    }
    assert forall|k: int| 0 <= k < longer.len() implies address_ok((#[trigger] longer[k]).0) by {
        if k < list.len() {
            assert(longer[k] == list[k]);
        }
    }
}

/// When a pass finds nothing, every device has been found and all are
/// valid: the search ends without an error.
pub proof fn lemma_search_over(
    present: bool,
    bus: Set<u64>,
    start: Option<CursorModel>,
    list: Seq<Address>,
)
    requires
        !present ==> silent(bus),
        start is None ==> list.len() == 0,
        start matches Some(c) ==> tracks(bus, c) && up_to(bus, list, c.address),
        (start matches Some(c) && c.exhausted()) || !present,
    ensures
        forall|a: u64| listed(list, a) <==> bus.contains(a) && before_every_invalid(bus, a),
        discovery_error(present, bus) is None,
{
    if start is Some {
        let c = start->0;
        assert(bus.contains(c.address));
        assert(present);
        lemma_exhausted_iff_last(bus, c);
        assert forall|a: u64| bus.contains(a) implies listed(list, a) by {
            lemma_precedes_total(a, c.address);
        }
        assert forall|s: u64| bus.contains(s) implies address_ok(s) by {
            assert(listed(list, s));
            let k = choose|k: int| 0 <= k < list.len() && (#[trigger] list[k]).0 == s;
            assert(address_ok(list[k].0));
        }
    }
}

/// When a pass fails, the devices found so far are exactly those that
/// come before every invalid one, and the error is the one that a search of
/// this bus ends with.
pub proof fn lemma_search_stopped(
    present: bool,
    bus: Set<u64>,
    start: Option<CursorModel>,
    list: Seq<Address>,
    error: BusError,
)
    requires
        !present ==> silent(bus),
        start is None ==> list.len() == 0,
        start matches Some(c) ==> tracks(bus, c) && up_to(bus, list, c.address),
        !((start matches Some(c) && c.exhausted()) || !present),
        if breaks_off(bus, start) {
            error == BusError::UnexpectedResponse
        } else {
            error == BusError::CrcMismatch && exists|first: u64|
                is_least(scope(bus, start), first) && !address_ok(first)
        },
    ensures
        forall|a: u64| listed(list, a) <==> bus.contains(a) && before_every_invalid(bus, a),
        discovery_error(present, bus) == Some(error),
{
    if start is Some {
        let c = start->0;
        lemma_resumed_pass_gets_through(bus, c);
        let first = choose|first: u64| is_least(scope(bus, start), first) && !address_ok(first);
        lemma_resumed_pass_finds_successor(bus, c, first);
        assert(bus.contains(first) && !address_ok(first));
        assert forall|a: u64| listed(list, a) <==> bus.contains(a) && before_every_invalid(
            bus,
            a,
        ) by {
            if listed(list, a) {
                assert forall|s: u64| bus.contains(s) && !address_ok(s) implies precedes(a, s) by {
                    lemma_precedes_total(s, c.address);
                    if s == c.address || precedes(s, c.address) {
                        assert(listed(list, s));
                        let k = choose|k: int| 0 <= k < list.len() && (#[trigger] list[k]).0 == s;
                        assert(address_ok(list[k].0));
                    }
                    if a != c.address {
                        lemma_precedes_transitive(a, c.address, s);
                    }
                }
            }
            if bus.contains(a) && before_every_invalid(bus, a) {
                assert(precedes(a, first));
                lemma_precedes_total(a, c.address);
                if precedes(c.address, a) {
                    lemma_precedes_asymmetric(a, first);
                    lemma_precedes_irreflexive(first);
                }
            }
        }
    } else {
        if breaks_off(bus, start) {
        } else {
            let first = choose|first: u64| is_least(scope(bus, start), first) && !address_ok(first);
            assert(in_scope(bus, start, first));
            assert(bus.contains(first) && !address_ok(first));
            assert forall|a: u64| !(bus.contains(a) && before_every_invalid(bus, a)) by {
                if bus.contains(a) && before_every_invalid(bus, a) {
                    assert(precedes(a, first));
                    assert(scope(bus, start).contains(a));
                    lemma_precedes_asymmetric(a, first);
                    lemma_precedes_irreflexive(first);
                }
            }
        }
    }
}

/// On a bus whose addresses are all valid, a search that ran to its end
/// has found every answering device, each exactly once, and has ended
/// without an error, in whatever order the devices were attached.
pub proof fn lemma_every_device_once(present: bool, bus: Set<u64>, found: Seq<Address>)
    requires
        ascending(raw(found)),
        forall|a: u64| listed(found, a) <==> bus.contains(a) && before_every_invalid(bus, a),
        forall|a: u64| bus.contains(a) ==> address_ok(a),
        present <==> !silent(bus),
    ensures
        raw(found).no_duplicates(),
        forall|a: u64| listed(found, a) <==> bus.contains(a),
        discovery_error(present, bus) is None,
{
    crate::order::lemma_ascending_no_duplicates(raw(found));
}

/// Every device answers an ordinary search, so such a search is met with
/// silence exactly when nothing answers a reset.
pub proof fn lemma_ordinary_search_hears_all(bus: SimulatedBus)
    ensures
        bus.present() <==> !silent(bus.responders(false)),
{
    if bus.present() {
        assert(answers(bus.devices@[0], false));
        assert(bus.responders(false).contains(bus.devices@[0].address));
    }
}

} // verus!
