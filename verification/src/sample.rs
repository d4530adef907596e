//! What one sensor reports in one round.

use vstd::prelude::*;
use crate::resolution::Resolution;

verus! {

/// One measurement: the temperature as a whole number of sixteenths of a
/// degree Celsius, and the precision that the sensor converted with.
#[derive(Clone, Copy, Debug, PartialEq, Eq, Structural)]
pub struct Sample {
    pub sixteenths: i32,
    pub resolution: Resolution,
}

} // verus!
