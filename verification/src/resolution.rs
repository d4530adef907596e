//! Conversion precision of a sensor and the time a conversion may take.

use vstd::prelude::*;

verus! {

/// How many bits of precision a sensor converts to.
#[derive(Clone, Copy, Debug, PartialEq, Eq, Structural)]
pub enum Resolution {
    Bits9,
    Bits10,
    Bits11,
    Bits12,
}

/// Worst-case conversion latency in milliseconds for each precision.
pub open spec fn conversion_millis(resolution: Resolution) -> u16 {
    match resolution {
        Resolution::Bits9 => 94,
        Resolution::Bits10 => 188,
        Resolution::Bits11 => 375,
        Resolution::Bits12 => 750,
    }
}

/// Trusted: `ds18b20::Resolution::max_measurement_time_millis`. The contract
/// is that method's table: 94, 188, 375 and 750 milliseconds for 9 to 12 bits.
#[verifier::external_body]
fn max_measurement_time_millis(resolution: Resolution) -> (millis: u16)
    ensures
        millis == conversion_millis(resolution),
{
    let outside = match resolution {
        Resolution::Bits9 => ds18b20::Resolution::Bits9,
        Resolution::Bits10 => ds18b20::Resolution::Bits10,
        Resolution::Bits11 => ds18b20::Resolution::Bits11,
        Resolution::Bits12 => ds18b20::Resolution::Bits12,
    };
    outside.max_measurement_time_millis()
}

impl Resolution {
    /// The number of bits of precision.
    pub open spec fn spec_bits(self) -> u8 {
        match self {
            Resolution::Bits9 => 9,
            Resolution::Bits10 => 10,
            Resolution::Bits11 => 11,
            Resolution::Bits12 => 12,
        }
    }

    /// The precision that a round assumes when it has not asked the devices:
    /// the finest one, which is also the slowest.
    pub open spec fn spec_finest() -> Resolution {
        Resolution::Bits12
    }

    #[verifier::when_used_as_spec(spec_bits)]
    pub fn bits(self) -> (bits: u8)
        ensures
            bits == self.spec_bits(),
    {
        match self {
            Resolution::Bits9 => 9,
            Resolution::Bits10 => 10,
            Resolution::Bits11 => 11,
            Resolution::Bits12 => 12,
        }
    }

    /// The precision with the given number of bits, if there is one.
    pub fn from_bits(bits: u8) -> (resolution: Option<Resolution>)
        ensures
            resolution matches Some(r) ==> r.spec_bits() == bits,
            resolution is Some <==> 9 <= bits <= 12,
    {
        match bits {
            9 => Some(Resolution::Bits9),
            10 => Some(Resolution::Bits10),
            11 => Some(Resolution::Bits11),
            12 => Some(Resolution::Bits12),
            _ => None,
        }
    }

    /// How long to wait, in milliseconds, before a conversion at this
    /// precision is certain to have finished.
    pub fn conversion_time_millis(self) -> (millis: u16)
        ensures
            millis == conversion_millis(self),
    {
        max_measurement_time_millis(self)
    }
}

/// A finer precision never converts faster than a coarser one, and the
/// finest precision bounds them all.
pub proof fn lemma_conversion_time_monotonic(a: Resolution, b: Resolution)
    ensures
        a.spec_bits() <= b.spec_bits() ==> conversion_millis(a) <= conversion_millis(b),
        conversion_millis(a) <= conversion_millis(Resolution::spec_finest()),
{
}

} // verus!
