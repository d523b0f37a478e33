//! Observation identifiers: the payload values a meta-election decides on.

use vstd::prelude::*;

verus! {

/// Hash derived from an observation's content. The most recently decided
/// observation's hash seeds every voter's round-hash chain for the next
/// election; before any decision a fixed all-zero seed is used.
#[derive(Clone, Copy, PartialEq, Eq, PartialOrd, Ord, Hash, Structural, Debug)]
pub struct ObservationHash(pub u64);

impl ObservationHash {
    /// The fixed seed used before any observation has been decided.
    pub fn zero() -> (r: ObservationHash)
        ensures
            r == (ObservationHash(0u64)),
    {
        ObservationHash(0u64)
    }
}

/// Identifies a candidate decided payload; carries the observation hash
/// derived from the payload's content.
#[derive(Clone, Copy, PartialEq, Eq, PartialOrd, Ord, Hash, Structural, Debug)]
pub struct ObservationKey(pub ObservationHash);

impl ObservationKey {
    /// The observation hash this key carries.
    pub fn hash(&self) -> (r: ObservationHash)
        ensures
            r == self.0,
    {
        self.0
    }
}

} // verus!
