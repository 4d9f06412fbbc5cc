//! The ASCII characters that the coordinate fields are made of.
use vstd::prelude::*;

verus! {

/// The space that blanks a digit.
pub const SPACE: u8 = 0x20;

/// The decimal point between the minutes and their fraction.
pub const POINT: u8 = 0x2e;

/// The digit `0`.
pub const ZERO: u8 = 0x30;

/// The digit `9`.
pub const NINE: u8 = 0x39;

/// `N`, the northern hemisphere.
pub const NORTH: u8 = 0x4e;

/// `S`, the southern hemisphere.
pub const SOUTH: u8 = 0x53;

/// `E`, the eastern hemisphere.
pub const EAST: u8 = 0x45;

/// `W`, the western hemisphere.
pub const WEST: u8 = 0x57;

} // verus!
