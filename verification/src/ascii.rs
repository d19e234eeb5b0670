//! The bytes of the ASCII characters that the texts of this crate are made of.

use vstd::prelude::*;

verus! {

/// `'`
pub const APOSTROPHE: u8 = 0x27;

/// `+`
pub const PLUS: u8 = 0x2b;

/// `/`
pub const SLASH: u8 = 0x2f;

/// `0`
pub const DIGIT_0: u8 = 0x30;

/// `9`
pub const DIGIT_9: u8 = 0x39;

/// `A`
pub const UPPER_A: u8 = 0x41;

/// `F`
pub const UPPER_F: u8 = 0x46;

/// `a`
pub const LOWER_A: u8 = 0x61;

/// `f`
pub const LOWER_F: u8 = 0x66;

/// `m`
pub const LOWER_M: u8 = 0x6d;

/// `x`
pub const LOWER_X: u8 = 0x78;

} // verus!
