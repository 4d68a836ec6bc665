//! The steering control unit.

use vstd::prelude::*;

verus! {

pub const TYPE: u8 = 0x12;

pub const CURRENT_POSITION: u8 = 3;

pub const TARGET_POSITION: u8 = 1;

} // verus!
