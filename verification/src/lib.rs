//! Per-node bookkeeping core of a leaderless gossip consensus protocol.
//!
//! A `MetaElection` owns the accumulated meta-voting state for one decision
//! round: the meta-event recorded for each graph event, one round-hash chain
//! per voter, the events whose interesting content is non-empty, the events
//! still carrying undecided payloads, and the append-only history of decided
//! observation keys. It exposes the operations that let the surrounding
//! engine feed in freshly computed meta-events, query the accumulated state,
//! and roll it forward into the next election once a decision is reached.

pub mod gossip;
pub mod laws;
pub mod meta_election;
pub mod meta_event;
pub mod meta_event_map;
pub mod meta_vote;
pub mod observation;
pub mod peer_list;
pub mod round_hash;

pub use gossip::EventIndex;
pub use gossip::EventIndexSet;
pub use gossip::Graph;
pub use gossip::GraphEvent;
pub use meta_election::MetaElection;
pub use meta_event::MetaEvent;
pub use meta_event_map::MetaEventMap;
pub use meta_vote::MetaVote;
pub use observation::ObservationHash;
pub use observation::ObservationKey;
pub use peer_list::PeerId;
pub use peer_list::PeerIndex;
pub use peer_list::PeerIndexMap;
pub use peer_list::PeerIndexSet;
pub use peer_list::PeerListChange;
pub use round_hash::RoundHash;
