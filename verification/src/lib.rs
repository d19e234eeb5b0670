//! Command frames for the Starknet application of a hardware signer.
//!
//! A signing request (public key, hash, transaction) is turned into the
//! ordered list of frames that the device expects. Each frame has a four-byte
//! header and at most 255 bytes of payload.

pub mod apdu;
pub mod ascii;
pub mod bigendian;
pub mod builder;
pub mod hex;
pub mod instruction;
pub mod path;
pub mod radix;
pub mod text;
pub mod types;
pub mod u256;
