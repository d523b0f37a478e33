//! Per-round meta-vote records, as this core reads them.

use vstd::prelude::*;

verus! {

/// One meta-vote: an estimate computed at a given round. Only the round tag
/// matters to the election state, which uses it to grow round-hash chains.
#[derive(Clone, Copy, PartialEq, Eq, Structural, Debug)]
pub struct MetaVote {
    pub round: usize,
}

/// One more than the largest round tagged in the votes; 0 when there are
/// none. A voter's round-hash chain must reach this length.
pub open spec fn rounds_needed(votes: Seq<MetaVote>) -> int
    decreases votes.len(),
{
    if votes.len() == 0 {
        0
    } else {
        let rest = rounds_needed(votes.drop_last());
        if votes.last().round + 1 > rest {
            votes.last().round + 1
        } else {
            rest
        }
    }
}

} // verus!
