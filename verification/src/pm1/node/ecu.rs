//! The engine control units, one for each driven wheel.

use vstd::prelude::*;

verus! {

pub const TYPE: u8 = 0x11;

pub const CURRENT_POSITION: u8 = 6;

pub const TARGET_SPEED: u8 = 1;

} // verus!
