//! Algorithm identifiers.

use vstd::prelude::*;

verus! {

/// ML-KEM (FIPS 203).
pub const ML_KEM: u16 = 0x0301;
/// ML-DSA (FIPS 204); a signature scheme, unused by the Mode-A bootstrap.
pub const ML_DSA: u16 = 0x0401;

} // verus!
