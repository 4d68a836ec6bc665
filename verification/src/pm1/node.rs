//! Node types, node indices and message types of the chassis bus.

pub mod ecu;
pub mod tcu;
pub mod vcu;

use vstd::prelude::*;

verus! {

/// Addresses every node type.
pub const EVERY_TYPE: u8 = 0x3f;

/// Addresses every node of a type.
pub const EVERY_INDEX: u8 = 0x0f;

/// A node reports its state.
pub const STATE: u8 = 0x80;

/// Software lock or unlock of the chassis.
pub const STOP: u8 = 0xff;

/// The first message type that is broadcast across node types.
pub const BROADCAST: u8 = 0x80;

/// The state byte of a locked node.
pub const LOCKED: u8 = 0xff;

} // verus!
