//! Identities: 32-byte public identifiers of the callers.
//!
//! The library only ever compares identities and feeds their bytes to
//! address derivation, so an identity is held as two 128-bit halves of its
//! 32-byte value, in little-endian order.

use vstd::prelude::*;

verus! {

/// A caller's public identifier, as the two little-endian 128-bit halves of
/// its 32-byte value.
#[derive(PartialEq, Eq, Structural, Clone, Copy, Debug, Hash)]
pub struct Identity {
    pub lo: u128,
    pub hi: u128,
}

impl Identity {
    /// Builds an identity from its two little-endian 128-bit halves.
    pub fn new(lo: u128, hi: u128) -> (r: Identity)
        ensures
            r == (Identity { lo, hi }),
    {
        Identity { lo, hi }
    }
}

} // verus!
