//! Protocol variants.

use vstd::prelude::*;

verus! {

/// Variant A1: pre-shared classical secret.
pub const A1: u8 = 0x01;
/// Variant A2: explicit ECDH.
pub const A2: u8 = 0x02;

} // verus!
