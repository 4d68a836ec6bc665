//! The vehicle control unit.

use vstd::prelude::*;

verus! {

pub const TYPE: u8 = 0x10;

pub const BATTERY_PERCENT: u8 = 1;

pub const POWER_SWITCH: u8 = 7;

} // verus!
