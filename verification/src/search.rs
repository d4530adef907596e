//! One pass of the device search, bit by bit.
//!
//! In a pass every device still taking part sends one bit of its address and
//! then the inverse of that bit; the wire reads low in a slot if any device
//! pulls it low. From the two slots the master learns whether a zero, a one
//! or both are present at this position, decides which way to go and writes
//! the decision back, which silences the devices on the other branch.
//!
//! [`SearchPass`] holds the decisions. It never touches the wire: its caller
//! reads the two slots, hands them to [`SearchPass::advance`] and writes the
//! bit that comes back.

use vstd::prelude::*;
use crate::address::{address_ok, Address};
use crate::bits::{
    bit_of, lemma_nonzero_has_bit, lemma_with_bit, lemma_zero_has_no_bits, replace_bit, test_bit,
    with_bit,
};
use crate::error::BusError;

verus! {

/// The command byte that opens a search among all devices.
pub const SEARCH_ALL: u8 = 0xF0;

/// The command byte that opens a search among the devices in alarm.
pub const SEARCH_ALARMED: u8 = 0xEC;

/// Trusted: the constant `one_wire_bus::commands::SEARCH_NORMAL`, which
/// that crate defines as `0xF0`.
#[verifier::external_body]
fn outside_search_normal() -> (command: u8)
    ensures
        command == SEARCH_ALL,
{
    one_wire_bus::commands::SEARCH_NORMAL
}

/// Trusted: the constant `one_wire_bus::commands::SEARCH_ALARM`, which that
/// crate defines as `0xEC`.
#[verifier::external_body]
fn outside_search_alarm() -> (command: u8)
    ensures
        command == SEARCH_ALARMED,
{
    one_wire_bus::commands::SEARCH_ALARM
}

/// The command byte that the master sends, after a reset, to open a pass.
pub fn search_command(alarm_only: bool) -> (command: u8)
    ensures
        command == (if alarm_only {
            SEARCH_ALARMED
        } else {
            SEARCH_ALL
        }),
{
    if alarm_only {
        outside_search_alarm()
    } else {
        outside_search_normal()
    }
}

/// What the master sends after the reset that opens a pass: the search
/// command if a device answered the reset with a presence pulse. If none
/// did, there is nothing to search, and the pass ends before its first bit
/// with nothing found, which is no error.
pub fn opening_command(presence: bool, alarm_only: bool) -> (command: Option<u8>)
    ensures
        command == (if !presence {
            None
        } else if alarm_only {
            Some(SEARCH_ALARMED)
        } else {
            Some(SEARCH_ALL)
        }),
{
    if presence {
        Some(search_command(alarm_only))
    } else {
        None
    }
}

/// What a cursor remembers of the pass that produced it.
pub struct CursorModel {
    /// The address that the pass found.
    pub address: u64,
    /// Bit `j` is set when the pass met both a zero and a one at position
    /// `j`, went towards zero, and the branch towards one is still unvisited.
    pub discrepancies: u64,
    /// The highest position recorded in `discrepancies`, or 0 if there is
    /// none.
    pub last: int,
}

impl CursorModel {
    pub open spec fn wf(self) -> bool {
        &&& 0 <= self.last < 64
        &&& forall|j: int| self.last < j < 64 ==> !bit_of(self.discrepancies, j)
        &&& self.discrepancies != 0 ==> bit_of(self.discrepancies, self.last)
        &&& self.discrepancies == 0 ==> self.last == 0
    }

    /// No branch is left to visit: the search is over.
    pub open spec fn exhausted(self) -> bool {
        self.discrepancies == 0
    }
}

/// Where a search stands between two passes. A cursor is made by a pass that
/// found a device and is handed to the next pass, which then continues
/// behind that device instead of starting over.
#[derive(Debug)]
pub struct SearchCursor {
    address: u64,
    discrepancies: u64,
    last: u8,
}

impl View for SearchCursor {
    type V = CursorModel;

    closed spec fn view(&self) -> CursorModel {
        CursorModel {
            address: self.address,
            discrepancies: self.discrepancies,
            last: self.last as int,
        }
    }
}

impl SearchCursor {
    #[verifier::type_invariant]
    closed spec fn inv(self) -> bool {
        self@.wf()
    }

    /// The address that the last pass found.
    pub fn address(&self) -> (address: Address)
        ensures
            address.0 == self@.address,
            self@.wf(),
    {
        proof {
            use_type_invariant(self);
        }
        Address(self.address)
    }

    /// Whether the search is over: the next pass would find nothing.
    pub fn is_exhausted(&self) -> (over: bool)
        ensures
            over == self@.exhausted(),
            self@.wf(),
    {
        proof {
            use_type_invariant(self);
        }
        self.discrepancies == 0
    }

    /// A copy of this cursor.
    pub fn duplicate(&self) -> (copy: SearchCursor)
        ensures
            copy@ == self@,
            self@.wf(),
    {
        proof {
            use_type_invariant(self);
        }
        SearchCursor { address: self.address, discrepancies: self.discrepancies, last: self.last }
    }
}

/// A pass in progress.
pub struct PassModel {
    /// The position of the next bit, `0..64`.
    pub index: int,
    /// Below `index`: the bits decided so far. From `index` up: the bits of
    /// the address that the pass resumes from, or zeros.
    pub address: u64,
    /// The branches left unvisited, as in [`CursorModel`].
    pub discrepancies: u64,
    /// The highest recorded branch below `index`, or 0 if there is none.
    pub last: int,
    /// In a resumed pass, the position at which it leaves the path of the
    /// pass before it, towards one.
    pub pivot: Option<int>,
}

impl PassModel {
    /// The first position above which nothing is recorded yet.
    pub open spec fn recorded_below(self) -> int {
        match self.pivot {
            Some(pv) if self.index <= pv => pv,
            _ => self.index,
        }
    }

    pub open spec fn wf(self) -> bool {
        &&& 0 <= self.index < 64
        &&& 0 <= self.last < 64
        &&& self.pivot matches Some(pv) ==> 0 <= pv < 64
        &&& forall|j: int| self.recorded_below() <= j < 64 ==> !bit_of(self.discrepancies, j)
        &&& forall|j: int| self.last < j < self.index ==> !bit_of(self.discrepancies, j)
        &&& (exists|j: int| 0 <= j < self.index && bit_of(self.discrepancies, j)) ==> self.last
            < self.index && bit_of(self.discrepancies, self.last)
        &&& (forall|j: int| 0 <= j < self.index ==> !bit_of(self.discrepancies, j)) ==> self.last
            == 0
    }

    /// The pass is still on the path of the pass before it.
    pub open spec fn retracing(self) -> bool {
        self.pivot matches Some(pv) && self.index < pv
    }

    /// The pass stands where it leaves the path of the pass before it.
    pub open spec fn at_pivot(self) -> bool {
        self.pivot == Some(self.index)
    }
}

/// The pass that starts a search over (`None`) or continues behind the
/// device of `cursor`.
pub open spec fn opening(cursor: Option<CursorModel>) -> PassModel {
    match cursor {
        None => PassModel { index: 0, address: 0, discrepancies: 0, last: 0, pivot: None },
        Some(c) => PassModel {
            index: 0,
            address: c.address,
            discrepancies: with_bit(c.discrepancies, c.last, false),
            last: 0,
            pivot: Some(c.last),
        },
    }
}

/// The bit that the master writes after reading the two slots, or `None`
/// where the slots contradict the protocol.
///
/// While retracing, the pass repeats the decision of the pass before it,
/// whatever it reads. At the pivot both a zero and a one must be present,
/// and the pass goes towards one. Anywhere else it follows the devices if
/// they agree and goes towards zero if they do not; silence in both slots
/// means that no device is taking part.
pub open spec fn chosen_bit(pass: PassModel, zero: bool, one: bool) -> Option<bool> {
    if pass.retracing() {
        Some(bit_of(pass.address, pass.index))
    } else if pass.at_pivot() {
        if zero && one {
            Some(true)
        } else {
            None
        }
    } else if zero {
        Some(false)
    } else if one {
        Some(true)
    } else {
        None
    }
}

/// Whether this step meets a branch for the first time: both a zero and a
/// one present, on fresh ground.
pub open spec fn forks(pass: PassModel, zero: bool, one: bool) -> bool {
    !pass.retracing() && !pass.at_pivot() && zero && one
}

/// The pass after it has decided on `bit` at its current position.
pub open spec fn moved_on(pass: PassModel, zero: bool, one: bool, bit: bool) -> PassModel {
    PassModel {
        index: pass.index + 1,
        address: if pass.retracing() {
            pass.address
        } else {
            with_bit(pass.address, pass.index, bit)
        },
        discrepancies: if forks(pass, zero, one) {
            with_bit(pass.discrepancies, pass.index, true)
        } else {
            pass.discrepancies
        },
        last: if forks(pass, zero, one) || (pass.retracing() && bit_of(
            pass.discrepancies,
            pass.index,
        )) {
            pass.index
        } else {
            pass.last
        },
        pivot: pass.pivot,
    }
}

/// What one step of a pass comes to.
pub enum StepModel {
    Continue { write: bool, pass: PassModel },
    Found { write: bool, address: u64, cursor: CursorModel },
    Failed { pending: Option<bool>, error: BusError },
}

/// One step of a pass: the decision at the current position and what
/// follows from it. After the last of the 64 bits the address is complete;
/// it is handed out if its checksum fits.
pub open spec fn search_step(pass: PassModel, zero: bool, one: bool) -> StepModel {
    match chosen_bit(pass, zero, one) {
        None => StepModel::Failed { pending: None, error: BusError::UnexpectedResponse },
        Some(bit) => {
            let next = moved_on(pass, zero, one, bit);
            if next.index < 64 {
                StepModel::Continue { write: bit, pass: next }
            } else if address_ok(next.address) {
                StepModel::Found {
                    write: bit,
                    address: next.address,
                    cursor: CursorModel {
                        address: next.address,
                        discrepancies: next.discrepancies,
                        last: next.last,
                    },
                }
            } else {
                StepModel::Failed { pending: Some(bit), error: BusError::CrcMismatch }
            }
        },
    }
}

/// A search pass between two bits.
pub struct SearchPass {
    index: u8,
    address: u64,
    discrepancies: u64,
    last: u8,
    pivot: Option<u8>,
}

impl View for SearchPass {
    type V = PassModel;

    closed spec fn view(&self) -> PassModel {
        PassModel {
            index: self.index as int,
            address: self.address,
            discrepancies: self.discrepancies,
            last: self.last as int,
            pivot: match self.pivot {
                Some(pv) => Some(pv as int),
                None => None,
            },
        }
    }
}

/// What the caller of [`SearchPass::advance`] does next.
pub enum SearchStep {
    /// Write `write` to the wire, read the next two slots and advance `pass`.
    Continue { write: bool, pass: SearchPass },
    /// Write `write` to the wire. The pass is over: it found `address`, and
    /// `cursor` continues the search behind it.
    Found { write: bool, address: Address, cursor: SearchCursor },
    /// The pass is over without a device. Where `pending` holds a bit, that
    /// bit still goes to the wire.
    Failed { pending: Option<bool>, error: BusError },
}

impl View for SearchStep {
    type V = StepModel;

    open spec fn view(&self) -> StepModel {
        match *self {
            SearchStep::Continue { write, pass } => StepModel::Continue { write, pass: pass@ },
            SearchStep::Found { write, address, cursor } => StepModel::Found {
                write,
                address: address.0,
                cursor: cursor@,
            },
            SearchStep::Failed { pending, error } => StepModel::Failed { pending, error },
        }
    }
}

proof fn lemma_moved_on_wf(pass: PassModel, zero: bool, one: bool, bit: bool)
    requires
        pass.wf(),
        chosen_bit(pass, zero, one) == Some(bit),
    ensures
        ({
            let next = moved_on(pass, zero, one, bit);
            &&& next.index == pass.index + 1
            &&& 0 <= next.last < 64
            &&& forall|j: int| next.recorded_below() <= j < 64 ==> !bit_of(next.discrepancies, j)
            &&& forall|j: int| next.last < j < next.index ==> !bit_of(next.discrepancies, j)
            &&& (exists|j: int| 0 <= j < next.index && bit_of(next.discrepancies, j))
                ==> next.last < next.index && bit_of(next.discrepancies, next.last)
            &&& (forall|j: int| 0 <= j < next.index ==> !bit_of(next.discrepancies, j))
                ==> next.last == 0
        }),
{
    let next = moved_on(pass, zero, one, bit);
    assert forall|j: int|
        #![trigger bit_of(next.discrepancies, j)]
        bit_of(next.discrepancies, j) == (bit_of(pass.discrepancies, j) || (forks(pass, zero, one)
            && j == pass.index)) by {
        lemma_with_bit(pass.discrepancies, pass.index, true, j);
    }
    if exists|j: int| 0 <= j < next.index && bit_of(next.discrepancies, j) {
        let j = choose|j: int| 0 <= j < next.index && bit_of(next.discrepancies, j);
        if next.last != pass.index {
            assert(!bit_of(next.discrepancies, pass.index));
            assert(0 <= j < pass.index && bit_of(pass.discrepancies, j));
        }
    }
    if forall|j: int| 0 <= j < next.index ==> !bit_of(next.discrepancies, j) {
        assert(!bit_of(next.discrepancies, pass.index));
        assert forall|j: int| 0 <= j < pass.index implies !bit_of(pass.discrepancies, j) by {
            assert(!bit_of(next.discrepancies, j));
        }
    }
}

proof fn lemma_finished_cursor_wf(next: PassModel)
    requires
        next.index == 64,
        0 <= next.last < 64,
        forall|j: int| next.last < j < next.index ==> !bit_of(next.discrepancies, j),
        (exists|j: int| 0 <= j < next.index && bit_of(next.discrepancies, j)) ==> next.last
            < next.index && bit_of(next.discrepancies, next.last),
        (forall|j: int| 0 <= j < next.index ==> !bit_of(next.discrepancies, j)) ==> next.last == 0,
    ensures
        (CursorModel {
            address: next.address,
            discrepancies: next.discrepancies,
            last: next.last,
        }).wf(),
{
    if next.discrepancies != 0 {
        lemma_nonzero_has_bit(next.discrepancies);
    } else {
        assert forall|j: int| 0 <= j < next.index implies !bit_of(next.discrepancies, j) by {
            lemma_zero_has_no_bits(j);
        }
    }
}

/// The pass that a search opens with is a valid pass.
pub proof fn lemma_opening_wf(cursor: Option<CursorModel>)
    requires
        cursor matches Some(c) ==> c.wf(),
    ensures
        opening(cursor).wf(),
{
    let pass = opening(cursor);
    match cursor {
        None => {
            assert forall|j: int| !bit_of(pass.discrepancies, j) by {
                lemma_zero_has_no_bits(j);
            }
        },
        Some(c) => {
            assert forall|j: int|
                #![trigger bit_of(pass.discrepancies, j)]
                bit_of(pass.discrepancies, j) == (bit_of(c.discrepancies, j) && j != c.last) by {
                lemma_with_bit(c.discrepancies, c.last, false, j);
            }
        },
    }
}

impl SearchPass {
    #[verifier::type_invariant]
    closed spec fn inv(self) -> bool {
        self@.wf()
    }

    /// Opens a pass: a fresh one for `None`, else one that continues behind
    /// the device of `cursor`. Returns `None` when the cursor says that the
    /// search is over; then nothing goes to the wire.
    pub fn begin(cursor: Option<&SearchCursor>) -> (pass: Option<SearchPass>)
        ensures
            cursor matches Some(c) ==> c@.wf(),
            match cursor {
                Some(c) if c@.exhausted() => pass is None,
                Some(c) => pass matches Some(p) && p@ == opening(Some(c@)),
                None => pass matches Some(p) && p@ == opening(None),
            },
            pass matches Some(p) ==> p@.wf(),
    {
        match cursor {
            None => {
                proof {
                    lemma_opening_wf(None);
                }
                Some(SearchPass { index: 0, address: 0, discrepancies: 0, last: 0, pivot: None })
            },
            Some(c) => {
                proof {
                    use_type_invariant(c);
                    lemma_opening_wf(Some(c@));
                }
                if c.discrepancies == 0 {
                    None
                } else {
                    Some(
                        SearchPass {
                            index: 0,
                            address: c.address,
                            discrepancies: replace_bit(c.discrepancies, c.last, false),
                            last: 0,
                            pivot: Some(c.last),
                        },
                    )
                }
            },
        }
    }

    /// The position of the bit that the pass decides next.
    pub fn position(&self) -> (index: u8)
        ensures
            index == self@.index,
            self@.wf(),
    {
        proof {
            use_type_invariant(self);
        }
        self.index
    }

    /// The bits decided so far, in the low `position()` bits of the result.
    pub fn path(&self) -> (address: u64)
        ensures
            address == self@.address,
            self@.wf(),
    {
        proof {
            use_type_invariant(self);
        }
        self.address
    }

    /// Decides the current bit from the two slots read on the wire:
    /// `zero` says that some device sent a zero, `one` that some device sent
    /// a one.
    pub fn advance(self, zero: bool, one: bool) -> (step: SearchStep)
        ensures
            self@.wf(),
            step@ == search_step(self@, zero, one),
            step matches SearchStep::Continue { pass, .. } ==> pass@.wf(),
            step matches SearchStep::Found { cursor, .. } ==> cursor@.wf(),
    {
        proof {
            use_type_invariant(&self);
        }
        let retracing = match self.pivot {
            Some(pv) => self.index < pv,
            None => false,
        };
        let at_pivot = match self.pivot {
            Some(pv) => self.index == pv,
            None => false,
        };
        let bit = if retracing {
            test_bit(self.address, self.index)
        } else if at_pivot {
            if zero && one {
                true
            } else {
                return SearchStep::Failed { pending: None, error: BusError::UnexpectedResponse };
            }
        } else if zero {
            false
        } else if one {
            true
        } else {
            return SearchStep::Failed { pending: None, error: BusError::UnexpectedResponse };
        };
        let fork = !retracing && !at_pivot && zero && one;
        let address = if retracing {
            self.address
        } else {
            replace_bit(self.address, self.index, bit)
        };
        let discrepancies = if fork {
            replace_bit(self.discrepancies, self.index, true)
        } else {
            self.discrepancies
        };
        let last = if fork || (retracing && test_bit(self.discrepancies, self.index)) {
            self.index
        } else {
            self.last
        };
        proof {
            lemma_moved_on_wf(self@, zero, one, bit);
        }
        if self.index < 63 {
            SearchStep::Continue {
                write: bit,
                pass: SearchPass {
                    index: self.index + 1,
                    address,
                    discrepancies,
                    last,
                    pivot: self.pivot,
                },
            }
        } else {
            proof {
                lemma_finished_cursor_wf(moved_on(self@, zero, one, bit));
            }
            let found = Address(address);
            if found.is_valid() {
                SearchStep::Found {
                    write: bit,
                    address: found,
                    cursor: SearchCursor { address, discrepancies, last },
                }
            } else {
                SearchStep::Failed { pending: Some(bit), error: BusError::CrcMismatch }
            }
        }
    }
}

} // verus!
