//! Parameter-set identifiers.

use vstd::prelude::*;

verus! {

/// ML-KEM-512.
pub const MLKEM_512: u8 = 0x01;
/// ML-KEM-768.
pub const MLKEM_768: u8 = 0x02;
/// ML-KEM-1024.
pub const MLKEM_1024: u8 = 0x03;

} // verus!
