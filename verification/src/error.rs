//! What can go wrong in one transaction on the wire.

use vstd::prelude::*;

verus! {

/// The ways in which a bus transaction fails.
#[derive(Clone, Copy, Debug, PartialEq, Eq, Structural)]
pub enum BusError {
    /// The wire did not return to its idle level: something holds it low.
    BusNotHigh,
    /// The pin itself reported a fault.
    PinError,
    /// The devices answered in a way that the protocol does not allow, as
    /// happens when one is attached or removed in the middle of a search.
    UnexpectedResponse,
    /// The address belongs to another kind of device.
    FamilyCodeMismatch,
    /// The checksum of what was read does not fit.
    CrcMismatch,
    /// A device did not finish in time.
    Timeout,
}

} // verus!
