//! The meta-event artifact: the meta-voting result computed for one event.

use vstd::prelude::*;
use crate::gossip::EventIndex;
use crate::meta_vote::MetaVote;
use crate::observation::ObservationKey;
use crate::peer_list::PeerIndex;
use crate::peer_list::PeerIndexMap;

verus! {

/// Mathematical content of a meta-event.
pub ghost struct MetaEventV {
    /// Observation keys this event finds interesting, in the order it first
    /// became aware of each.
    pub interesting_content: Seq<ObservationKey>,
    /// Per-voter meta-votes, each sequence ordered by round.
    pub meta_votes: Map<PeerIndex, Seq<MetaVote>>,
}

/// The meta-voting result computed for one graph event: the observation
/// keys the event newly estimates as provably decidable, and its per-voter
/// meta-votes.
#[derive(Debug)]
pub struct MetaEvent {
    pub interesting_content: Vec<ObservationKey>,
    pub meta_votes: PeerIndexMap<Vec<MetaVote>>,
}

impl View for MetaEvent {
    type V = MetaEventV;

    open spec fn view(&self) -> MetaEventV {
        MetaEventV {
            interesting_content: self.interesting_content@,
            meta_votes: self.meta_votes@,
        }
    }
}

impl MetaEvent {
    /// The per-voter vote map holds each voter at most once.
    pub open spec fn wf(&self) -> bool {
        self.meta_votes.wf()
    }
}

/// A record of one ingestion, for stating how the per-creator lists of
/// interesting events track the ingestion order.
pub ghost struct IngestRecord {
    pub event: EventIndex,
    pub creator: PeerIndex,
    /// Whether the ingested meta-event's interesting content was non-empty.
    pub interesting: bool,
}

} // verus!
