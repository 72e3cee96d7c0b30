//! The air data rates that the transceiver offers.

use vstd::prelude::*;

verus! {

/// An air data rate of the transceiver, in bits per second.
#[derive(Debug, Clone, Copy, PartialEq, Eq)]
pub enum BitRate {
    Rate5000,
    Rate15000,
    Rate58000,
    Rate236000,
}

impl BitRate {
    /// The rate in bits per second.
    pub open spec fn value(self) -> u32 {
        match self {
            BitRate::Rate5000 => 5000,
            BitRate::Rate15000 => 15000,
            BitRate::Rate58000 => 58000,
            BitRate::Rate236000 => 236000,
        }
    }

    /// The rate in bits per second.
    pub fn as_value(self) -> (rate: u32)
        ensures
            rate == self.value(),
            rate > 0,
    {
        match self {
            BitRate::Rate5000 => 5000,
            BitRate::Rate15000 => 15000,
            BitRate::Rate58000 => 58000,
            BitRate::Rate236000 => 236000,
        }
    }

    /// The rate in decimal digits, as a label shows it.
    pub fn as_string(self) -> (label: String)
        ensures
            self == BitRate::Rate5000 ==> label@ == "5000"@,
            self == BitRate::Rate15000 ==> label@ == "15000"@,
            self == BitRate::Rate58000 ==> label@ == "58000"@,
            self == BitRate::Rate236000 ==> label@ == "236000"@,
    {
        match self {
            BitRate::Rate5000 => "5000".to_string(),
            BitRate::Rate15000 => "15000".to_string(),
            BitRate::Rate58000 => "58000".to_string(),
            BitRate::Rate236000 => "236000".to_string(),
        }
    }
}

} // verus!
