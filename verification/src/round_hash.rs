//! Per-voter, per-round hash values seeding coin-round randomness.

use vstd::prelude::*;
use crate::observation::ObservationHash;
use crate::peer_list::PeerId;

verus! {

/// The round hash of one voter at one round. Round `r + 1`'s value is
/// derived deterministically from round `r`'s; round 0 is derived from the
/// voter's identity and a seed hash.
#[derive(Clone, Copy, PartialEq, Eq, Structural, Debug)]
pub struct RoundHash {
    pub peer_id: PeerId,
    pub seed: ObservationHash,
    pub round: usize,
}

impl RoundHash {
    /// The value the next round's hash must have.
    pub open spec fn spec_next(self) -> RoundHash {
        RoundHash { peer_id: self.peer_id, seed: self.seed, round: (self.round + 1) as usize }
    }

    /// The round-0 hash for a voter, bound to the given seed.
    pub fn new(peer_id: PeerId, seed: ObservationHash) -> (r: RoundHash)
        ensures
            r == (RoundHash { peer_id, seed, round: 0usize }),
    {
        RoundHash { peer_id, seed, round: 0 }
    }

    /// Derives the next round's hash from this one.
    pub fn increment_round(&self) -> (r: RoundHash)
        requires
            self.round < usize::MAX,
        ensures
            r == self.spec_next(),
    {
        RoundHash { peer_id: self.peer_id, seed: self.seed, round: self.round + 1 }
    }
}

/// A well-formed chain: non-empty, entry `i` is round `i`'s hash, and every
/// entry past the first is the deterministic successor of its predecessor.
pub open spec fn valid_chain(chain: Seq<RoundHash>) -> bool {
    &&& chain.len() >= 1
    &&& forall|i: int| 0 <= i < chain.len() ==> #[trigger] chain[i].round == i
    &&& forall|i: int| 1 <= i < chain.len() ==> #[trigger] chain[i] == chain[i - 1].spec_next()
}

/// A chain grown from another: the old entries are untouched and every new
/// entry is the deterministic successor of the entry before it.
pub open spec fn chain_extends(from: Seq<RoundHash>, to: Seq<RoundHash>) -> bool {
    &&& to.len() >= from.len()
    &&& forall|i: int| 0 <= i < from.len() ==> #[trigger] to[i] == from[i]
    &&& forall|i: int| from.len() <= i < to.len() ==> #[trigger] to[i] == to[i - 1].spec_next()
}

} // verus!
