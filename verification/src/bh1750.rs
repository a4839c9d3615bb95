//! The BH1750 light sensor: its operation codes. It is driven by the same
//! two-phase transfers as the temperature sensor.

use vstd::prelude::*;

pub use crate::tempsensor::{SpiAction, SpiResource, SpiState};

verus! {

/// Operation codes of the sensor.
#[derive(Clone, Copy, PartialEq, Eq, Debug, Structural)]
pub enum OpCode {
    PowerDown,
    PowerOn,
    Reset,
    /// Continuous measurement at 1 lx resolution, typically 120 ms each.
    ContinuousHResolutionMode,
    /// Continuous measurement at 0.5 lx resolution, typically 120 ms each.
    ContinuousHResolutionMode2,
}

impl OpCode {
    /// The byte that stands for this operation on the wire.
    pub open spec fn spec_code(self) -> u8 {
        match self {
            OpCode::PowerDown => 0b00000000,
            OpCode::PowerOn => 0b00000001,
            OpCode::Reset => 0b00000111,
            OpCode::ContinuousHResolutionMode => 0b00010000,
            OpCode::ContinuousHResolutionMode2 => 0b00010001,
        }
    }

    /// The byte that stands for this operation on the wire.
    pub fn code(&self) -> (b: u8)
        ensures
            b == self.spec_code(),
    {
        match self {
            OpCode::PowerDown => 0b00000000,
            OpCode::PowerOn => 0b00000001,
            OpCode::Reset => 0b00000111,
            OpCode::ContinuousHResolutionMode => 0b00010000,
            OpCode::ContinuousHResolutionMode2 => 0b00010001,
        }
    }
}

} // verus!
